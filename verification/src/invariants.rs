//! Structural invariants over the game state: properties that hold at
//! every decision point whatever the cards do, so that a violation is an
//! engine error. `check_core` holds at every decision point, even in the
//! middle of a resolution; `check_settled` holds besides whenever the
//! state-based actions have just run to a fixed point (CR 704.3);
//! `check_transition` compares two consecutive decision points.
//! Each returns one message per violation, in a fixed order; an empty list
//! means the state is coherent.

use vstd::prelude::*;
use crate::cards::CardRegistry;
use crate::effects::{sp_has_keyword, sp_pt, EFFECT_DEPTH};
use crate::events::{GameEvent, LossReason};
use crate::ids::{ObjectId, PlayerId};
use crate::objects::{get_counter_of, spec_counter};
use crate::state::{AwaitingAction, CombatState, GameObject, GameResult, GameState, ResolutionChoiceKind, StackEntry};
use crate::text::{decimal, signed_decimal, signed_decimal_wide, spec_decimal, spec_signed_decimal, views};
use crate::types::{CardType, CounterType, Keyword, Step, Zone};

verus! {

// ----------------------------------------------------------------------
// Messages

/// `acc`, with `m` added when `c` holds.
pub open spec fn when(acc: Seq<Seq<char>>, c: bool, m: Seq<char>) -> Seq<Seq<char>> {
    if c {
        acc.push(m)
    } else {
        acc
    }
}

/// Adds `m` to the messages.
fn put(w: &mut Vec<String>, m: String)
    ensures
        views(final(w)@) == views(old(w)@).push(m@),
        final(w)@.len() == old(w)@.len() + 1,
{
    let ghost before = w@;
    w.push(m);
    assert(views(w@) =~= views(before).push(m@));
}

/// Adds the messages of `w` after those of `v`.
fn put_all(v: &mut Vec<String>, w: Vec<String>)
    ensures
        views(final(v)@) == views(old(v)@) + views(w@),
        final(v)@.len() == old(v)@.len() + w@.len(),
{
    let ghost before = v@;
    let ghost ws = w@;
    let mut w = w;
    v.append(&mut w);
    assert(views(v@) =~= views(before) + views(ws));
}

/// No messages yet.
fn no_messages() -> (w: Vec<String>)
    ensures
        views(w@) == Seq::<Seq<char>>::empty(),
        w@.len() == 0,
{
    let w: Vec<String> = Vec::new();
    assert(views(w@) =~= Seq::<Seq<char>>::empty());
    w
}

/// `s` followed by `n` in decimal.
fn add_num(s: &mut String, n: u64)
    ensures
        final(s)@ == old(s)@ + spec_decimal(n as nat),
{
    let d = decimal(n);
    s.append(d.as_str());
}

/// The name a zone is written with.
pub open spec fn zone_name(z: Zone) -> Seq<char> {
    match z {
        Zone::Library => "Library"@,
        Zone::Hand => "Hand"@,
        Zone::Battlefield => "Battlefield"@,
        Zone::Graveyard => "Graveyard"@,
        Zone::Stack => "Stack"@,
        Zone::Exile => "Exile"@,
        Zone::Command => "Command"@,
    }
}

fn zone_str(z: Zone) -> (s: &'static str)
    ensures
        s@ == zone_name(z),
{
    match z {
        Zone::Library => "Library",
        Zone::Hand => "Hand",
        Zone::Battlefield => "Battlefield",
        Zone::Graveyard => "Graveyard",
        Zone::Stack => "Stack",
        Zone::Exile => "Exile",
        Zone::Command => "Command",
    }
}

/// The name a step is written with.
pub open spec fn step_name(s: Step) -> Seq<char> {
    match s {
        Step::Untap => "Untap"@,
        Step::Upkeep => "Upkeep"@,
        Step::Draw => "Draw"@,
        Step::PrecombatMain => "PrecombatMain"@,
        Step::BeginCombat => "BeginCombat"@,
        Step::DeclareAttackers => "DeclareAttackers"@,
        Step::DeclareBlockers => "DeclareBlockers"@,
        Step::CombatDamage => "CombatDamage"@,
        Step::EndCombat => "EndCombat"@,
        Step::PostcombatMain => "PostcombatMain"@,
        Step::End => "End"@,
        Step::Cleanup => "Cleanup"@,
    }
}

fn step_str(s: Step) -> (r: &'static str)
    ensures
        r@ == step_name(s),
{
    match s {
        Step::Untap => "Untap",
        Step::Upkeep => "Upkeep",
        Step::Draw => "Draw",
        Step::PrecombatMain => "PrecombatMain",
        Step::BeginCombat => "BeginCombat",
        Step::DeclareAttackers => "DeclareAttackers",
        Step::DeclareBlockers => "DeclareBlockers",
        Step::CombatDamage => "CombatDamage",
        Step::EndCombat => "EndCombat",
        Step::PostcombatMain => "PostcombatMain",
        Step::End => "End",
        Step::Cleanup => "Cleanup",
    }
}

/// How a message names an object: its id, then its name in brackets.
pub open spec fn obj_ref(o: GameObject) -> Seq<char> {
    spec_decimal(o.id.0 as nat) + " ("@ + o.name@ + ")"@
}

fn obj_ref_str(o: &GameObject) -> (s: String)
    ensures
        s@ == obj_ref(*o),
{
    let mut s = decimal(o.id.0);
    s.append(" (");
    s.append(o.name.as_str());
    s.append(")");
    s
}

/// The object's reference followed by `tail`.
fn obj_says(o: &GameObject, tail: &str) -> (s: String)
    ensures
        s@ == obj_ref(*o) + tail@,
{
    let mut s = obj_ref_str(o);
    s.append(tail);
    s
}

/// The object's reference, then `mid`, then the zone's name.
fn obj_in_zone(o: &GameObject, mid: &str) -> (s: String)
    ensures
        s@ == obj_ref(*o) + mid@ + zone_name(o.zone),
{
    let mut s = obj_ref_str(o);
    s.append(mid);
    s.append(zone_str(o.zone));
    s
}

/// `before`, `n` in decimal, then `after`.
fn note(before: &str, n: u64, after: &str) -> (s: String)
    ensures
        s@ == before@ + spec_decimal(n as nat) + after@,
{
    let mut s = String::from_str(before);
    add_num(&mut s, n);
    s.append(after);
    s
}

// ----------------------------------------------------------------------
// The checks made object by object

/// The checks made on each object, one at a time.
#[derive(Clone, Copy, PartialEq, Eq, Structural)]
pub enum ObjectCheck {
    Ids,
    AttachedBoth,
    StackZone,
    FutureAttack,
    CommandZone,
    Cycle,
    Records,
    Token,
    Markings,
    Creature,
    HasPowerToughness,
    LoyaltyOnlyPlaneswalkers,
    Deathtouch,
    ZeroLoyalty,
    BothCounters,
}

/// The id names a player of this game.
pub open spec fn is_player(st: GameState, p: PlayerId) -> bool {
    (p.0 as int) < st.players@.len()
}

/// An object in the stack zone is a spell on the stack, the spell
/// resolving, or a cast still being paid for.
pub open spec fn stack_accounts_for(st: GameState, id: ObjectId) -> bool {
    ||| st.stack@.contains(StackEntry::Spell(id))
    ||| st.resolving_spell == Some(id)
    ||| (st.pending_spell_cast matches Some(c) && c.object_id == id)
}

/// What the object with this id is attached to.
pub open spec fn host_of(st: GameState, id: ObjectId) -> Option<ObjectId> {
    match st.spec_obj(id) {
        Some(o) => o.attached_to,
        None => None,
    }
}

/// Where following attachments from `id` for `k` steps leads, if the walk
/// has not ended.
pub open spec fn attach_walk(st: GameState, id: ObjectId, k: nat) -> Option<ObjectId>
    decreases k,
{
    if k == 0 {
        Some(id)
    } else {
        match attach_walk(st, id, (k - 1) as nat) {
            Some(x) => host_of(st, x),
            None => None,
        }
    }
}

/// Following attachments from the object never ends: the walk lasts for
/// more steps than there are objects, so it runs round a cycle.
pub open spec fn in_cycle(st: GameState, id: ObjectId) -> bool {
    attach_walk(st, id, (st.objects@.len() + 1) as nat) is Some
}

/// How a creature stands once the state-based actions have run: it has
/// toughness above zero, and lethal damage only if indestructible
/// (CR 704.5f, 704.5g).
pub open spec fn creature_settled(st: GameState, reg: CardRegistry, o: GameObject) -> bool {
    o.zone == Zone::Battlefield && st.spec_card_types(o.id, &reg).contains(CardType::Creature) ==>
        match sp_pt(st, o.id, reg, false) {
            Some(t) => t > 0 && (o.damage_marked >= t ==> sp_has_keyword(st, o.id, Keyword::Indestructible, reg, EFFECT_DEPTH as nat)),
            None => true,
        }
}

/// What each check asks of the object at position `k`.
pub open spec fn object_ok(st: GameState, reg: CardRegistry, c: ObjectCheck, k: int) -> bool {
    let o = st.objects@[k];
    match c {
        ObjectCheck::Ids => (k > 0 ==> st.objects@[k - 1].id.0 < o.id.0) && o.id.0 < st.next_object_id,
        ObjectCheck::AttachedBoth => !(o.attached_to is Some && o.attached_to_player is Some),
        ObjectCheck::StackZone => o.zone == Zone::Stack ==> stack_accounts_for(st, o.id),
        ObjectCheck::FutureAttack => o.attacked_on_turn matches Some(t) ==> t <= st.turn_number,
        ObjectCheck::CommandZone => o.zone != Zone::Command,
        ObjectCheck::Cycle => !in_cycle(st, o.id),
        ObjectCheck::Records => {
            &&& is_player(st, o.owner)
            &&& is_player(st, o.controller)
            &&& (o.last_controller matches Some(p) ==> is_player(st, p))
            &&& (o.attached_to_player matches Some(p) ==> is_player(st, p))
            &&& (o.last_attached_to_player matches Some(p) ==> is_player(st, p))
            &&& records_ok(o)
        },
        ObjectCheck::Token => o.is_token ==> o.zone == Zone::Battlefield,
        ObjectCheck::Markings => o.zone != Zone::Battlefield ==> {
            &&& !o.tapped && o.damage_marked == 0
            &&& o.attached_to is None && o.attached_to_player is None
            &&& o.counters@.len() == 0 && o.regeneration_shields == 0
        },
        ObjectCheck::Creature => creature_settled(st, reg, o),
        ObjectCheck::HasPowerToughness => o.zone == Zone::Battlefield
            && st.spec_card_types(o.id, &reg).contains(CardType::Creature)
            ==> sp_pt(st, o.id, reg, true) is Some && sp_pt(st, o.id, reg, false) is Some,
        ObjectCheck::LoyaltyOnlyPlaneswalkers => o.zone == Zone::Battlefield
            && spec_counter(o.counters@, CounterType::Loyalty) > 0
            ==> st.spec_card_types(o.id, &reg).contains(CardType::Planeswalker),
        ObjectCheck::Deathtouch => !(o.zone == Zone::Battlefield
            && st.spec_card_types(o.id, &reg).contains(CardType::Creature)
            && o.dealt_deathtouch_damage && o.damage_marked > 0
            && !sp_has_keyword(st, o.id, Keyword::Indestructible, reg, EFFECT_DEPTH as nat)),
        ObjectCheck::ZeroLoyalty => !(o.zone == Zone::Battlefield
            && st.spec_card_types(o.id, &reg).contains(CardType::Planeswalker)
            && spec_counter(o.counters@, CounterType::Loyalty) == 0),
        ObjectCheck::BothCounters => !(o.zone == Zone::Battlefield
            && spec_counter(o.counters@, CounterType::PlusOnePlusOne) > 0
            && spec_counter(o.counters@, CounterType::MinusOneMinusOne) > 0),
    }
}

/// What an object records agrees with where it is: a controller of its
/// own only on the battlefield (CR 108.4), a back face up and a copy's
/// identity only there (CR 712.8a, 400.7), a flashback cast only on the
/// stack or in exile and never by a token (CR 702.34a), battlefield status
/// gone elsewhere (CR 400.7), marked damage with a record of what dealt
/// it, deathtouch damage only with damage marked, attachments only on the
/// battlefield (CR 701.3a), and no memory there of a player it enchanted.
pub open spec fn records_ok(o: GameObject) -> bool {
    identity_records_ok(o) && status_records_ok(o) && damage_records_ok(o)
}

pub open spec fn identity_records_ok(o: GameObject) -> bool {
    let on_bf = o.zone == Zone::Battlefield;
    &&& (!on_bf ==> o.controller == o.owner)
    &&& (o.is_transformed ==> on_bf)
    &&& (o.copy_grantor is Some ==> on_bf)
    &&& (o.cast_with_flashback ==> (o.zone == Zone::Stack || o.zone == Zone::Exile) && !o.is_token)
}

pub open spec fn status_records_ok(o: GameObject) -> bool {
    o.zone != Zone::Battlefield ==> !o.summoning_sick && o.attacked_on_turn is None && o.damaged_by@.len() == 0
        && !o.dealt_deathtouch_damage && o.abilities_activated_this_turn@.len() == 0
}

pub open spec fn damage_records_ok(o: GameObject) -> bool {
    let on_bf = o.zone == Zone::Battlefield;
    &&& (o.damage_marked > 0 ==> o.damaged_by@.len() != 0)
    &&& (o.dealt_deathtouch_damage ==> o.damage_marked != 0)
    &&& ((o.attached_to is Some || o.attached_to_player is Some) ==> on_bf)
    &&& (on_bf ==> o.last_attached_to_player is None)
}

pub open spec fn identity_records_messages(acc: Seq<Seq<char>>, o: GameObject) -> Seq<Seq<char>> {
    let on_bf = o.zone == Zone::Battlefield;
    let z = zone_name(o.zone);
    let r = obj_ref(o);
    when(when(when(when(when(acc,
        !on_bf && o.controller != o.owner, r + " in "@ + z + " is controlled by p"@ + spec_decimal(o.controller.0 as nat)
            + " but owned by p"@ + spec_decimal(o.owner.0 as nat) + " (CR 108.4)"@),
        o.is_transformed && !on_bf, r + " is transformed in "@ + z + " (CR 712.8a)"@),
        o.copy_grantor is Some && !on_bf, r + " in "@ + z + " is still a copy (CR 400.7)"@),
        o.cast_with_flashback && !(o.zone == Zone::Stack || o.zone == Zone::Exile),
            r + " cast with flashback is in "@ + z + " (CR 702.34a)"@),
        o.cast_with_flashback && o.is_token, r + " is a token cast with flashback"@)
}

pub open spec fn status_records_messages(acc: Seq<Seq<char>>, o: GameObject) -> Seq<Seq<char>> {
    let on_bf = o.zone == Zone::Battlefield;
    let z = zone_name(o.zone);
    let r = obj_ref(o);
    when(when(when(when(acc,
        !on_bf && o.summoning_sick, r + " in "@ + z + " is summoning sick"@),
        !on_bf && o.attacked_on_turn is Some, r + " in "@ + z + " remembers attacking"@),
        !on_bf && (o.damaged_by@.len() != 0 || o.dealt_deathtouch_damage), r + " in "@ + z + " keeps a damage record"@),
        !on_bf && o.abilities_activated_this_turn@.len() != 0, r + " in "@ + z + " remembers activations this turn (CR 400.7)"@)
}

pub open spec fn damage_records_messages(acc: Seq<Seq<char>>, o: GameObject) -> Seq<Seq<char>> {
    let on_bf = o.zone == Zone::Battlefield;
    let z = zone_name(o.zone);
    let r = obj_ref(o);
    when(when(when(when(acc,
        o.damage_marked > 0 && o.damaged_by@.len() == 0, r + " has "@ + spec_decimal(o.damage_marked as nat)
            + " damage marked but no record of what dealt it"@),
        o.dealt_deathtouch_damage && o.damage_marked == 0, r + " was dealt deathtouch damage but has none marked"@),
        (o.attached_to is Some || o.attached_to_player is Some) && !on_bf, r + " in "@ + z + " is attached to something"@),
        on_bf && o.last_attached_to_player is Some, r + " on the battlefield keeps a last-attached-to-player shadow"@)
}

/// The record messages about the object, after `acc`.
pub open spec fn records_messages(acc: Seq<Seq<char>>, o: GameObject) -> Seq<Seq<char>> {
    damage_records_messages(status_records_messages(identity_records_messages(acc, o), o), o)
}

fn identity_records_check(o: &GameObject, w: &mut Vec<String>)
    ensures
        views(final(w)@) == identity_records_messages(views(old(w)@), *o),
        final(w)@.len() == old(w)@.len() <==> identity_records_ok(*o),
        final(w)@.len() >= old(w)@.len(),
{
    let on_bf = o.zone == Zone::Battlefield;
    let z = zone_str(o.zone);
    if !on_bf && o.controller != o.owner {
        let mut m = obj_says(o, " in ");
        m.append(z);
        m.append(" is controlled by p");
        add_num(&mut m, o.controller.0 as u64);
        m.append(" but owned by p");
        add_num(&mut m, o.owner.0 as u64);
        m.append(" (CR 108.4)");
        put(w, m);
    }
    if o.is_transformed && !on_bf {
        let mut m = obj_in_zone(o, " is transformed in ");
        m.append(" (CR 712.8a)");
        put(w, m);
    }
    if o.copy_grantor.is_some() && !on_bf {
        let mut m = obj_in_zone(o, " in ");
        m.append(" is still a copy (CR 400.7)");
        put(w, m);
    }
    if o.cast_with_flashback && !(o.zone == Zone::Stack || o.zone == Zone::Exile) {
        let mut m = obj_in_zone(o, " cast with flashback is in ");
        m.append(" (CR 702.34a)");
        put(w, m);
    }
    if o.cast_with_flashback && o.is_token {
        put(w, obj_says(o, " is a token cast with flashback"));
    }
}

fn status_records_check(o: &GameObject, w: &mut Vec<String>)
    ensures
        views(final(w)@) == status_records_messages(views(old(w)@), *o),
        final(w)@.len() == old(w)@.len() <==> status_records_ok(*o),
        final(w)@.len() >= old(w)@.len(),
{
    let on_bf = o.zone == Zone::Battlefield;
    if !on_bf && o.summoning_sick {
        let mut m = obj_in_zone(o, " in ");
        m.append(" is summoning sick");
        put(w, m);
    }
    if !on_bf && o.attacked_on_turn.is_some() {
        let mut m = obj_in_zone(o, " in ");
        m.append(" remembers attacking");
        put(w, m);
    }
    if !on_bf && (o.damaged_by.len() != 0 || o.dealt_deathtouch_damage) {
        let mut m = obj_in_zone(o, " in ");
        m.append(" keeps a damage record");
        put(w, m);
    }
    if !on_bf && o.abilities_activated_this_turn.len() != 0 {
        let mut m = obj_in_zone(o, " in ");
        m.append(" remembers activations this turn (CR 400.7)");
        put(w, m);
    }
}

fn damage_records_check(o: &GameObject, w: &mut Vec<String>)
    ensures
        views(final(w)@) == damage_records_messages(views(old(w)@), *o),
        final(w)@.len() == old(w)@.len() <==> damage_records_ok(*o),
        final(w)@.len() >= old(w)@.len(),
{
    let on_bf = o.zone == Zone::Battlefield;
    if o.damage_marked > 0 && o.damaged_by.len() == 0 {
        let mut m = obj_says(o, " has ");
        add_num(&mut m, o.damage_marked as u64);
        m.append(" damage marked but no record of what dealt it");
        put(w, m);
    }
    if o.dealt_deathtouch_damage && o.damage_marked == 0 {
        put(w, obj_says(o, " was dealt deathtouch damage but has none marked"));
    }
    if (o.attached_to.is_some() || o.attached_to_player.is_some()) && !on_bf {
        let mut m = obj_in_zone(o, " in ");
        m.append(" is attached to something");
        put(w, m);
    }
    if on_bf && o.last_attached_to_player.is_some() {
        put(w, obj_says(o, " on the battlefield keeps a last-attached-to-player shadow"));
    }
}

/// The message about a player id on an object that names no player.
pub open spec fn not_a_player(st: GameState, o: GameObject, what: Seq<char>, p: PlayerId) -> Seq<char> {
    obj_ref(o) + ": "@ + what + " p"@ + spec_decimal(p.0 as nat) + " is not a player (of "@
        + spec_decimal(st.players@.len()) + ")"@
}

/// The optional player id names no player.
pub open spec fn bad_player(st: GameState, p: Option<PlayerId>) -> bool {
    p matches Some(q) && !is_player(st, q)
}

/// The messages of each check about the object at position `k`.
pub open spec fn object_messages(st: GameState, reg: CardRegistry, c: ObjectCheck, k: int) -> Seq<Seq<char>> {
    let o = st.objects@[k];
    let none = Seq::<Seq<char>>::empty();
    match c {
        ObjectCheck::Ids => when(
            when(none, k > 0 && st.objects@[k - 1].id.0 >= o.id.0,
                "object "@ + spec_decimal(o.id.0 as nat) + " not stored under its own id"@),
            o.id.0 >= st.next_object_id,
            "object "@ + spec_decimal(o.id.0 as nat) + " at or past next_object_id "@
                + spec_decimal(st.next_object_id as nat)),
        ObjectCheck::AttachedBoth => when(none, o.attached_to is Some && o.attached_to_player is Some,
            obj_ref(o) + " attached to both an object and a player"@),
        ObjectCheck::StackZone => when(none, o.zone == Zone::Stack && !stack_accounts_for(st, o.id),
            obj_ref(o) + " in stack zone but on no stack entry"@),
        ObjectCheck::FutureAttack => match o.attacked_on_turn {
            Some(t) => when(none, t > st.turn_number,
                obj_ref(o) + " attacked on future turn "@ + spec_decimal(t as nat)),
            None => none,
        },
        ObjectCheck::CommandZone => when(none, o.zone == Zone::Command, obj_ref(o) + " in the unused command zone"@),
        ObjectCheck::Cycle => when(none, in_cycle(st, o.id), obj_ref(o) + " sits in an attachment cycle"@),
        ObjectCheck::Records => records_messages(when(when(when(when(when(none,
            !is_player(st, o.owner), not_a_player(st, o, "owner"@, o.owner)),
            !is_player(st, o.controller), not_a_player(st, o, "controller"@, o.controller)),
            bad_player(st, o.last_controller), not_a_player(st, o, "last_controller"@, o.last_controller.unwrap())),
            bad_player(st, o.attached_to_player), not_a_player(st, o, "attached_to_player"@, o.attached_to_player.unwrap())),
            bad_player(st, o.last_attached_to_player),
            not_a_player(st, o, "last_attached_to_player"@, o.last_attached_to_player.unwrap())), o),
        ObjectCheck::Token => when(none, o.is_token && o.zone != Zone::Battlefield,
            "token "@ + obj_ref(o) + " still exists in "@ + zone_name(o.zone)),
        ObjectCheck::Markings => if o.zone != Zone::Battlefield {
            when(when(when(when(when(none,
                o.tapped, obj_ref(o) + " tapped in "@ + zone_name(o.zone)),
                o.damage_marked != 0, obj_ref(o) + " has "@ + spec_decimal(o.damage_marked as nat)
                    + " damage marked in "@ + zone_name(o.zone)),
                o.attached_to is Some || o.attached_to_player is Some, obj_ref(o) + " still attached in "@ + zone_name(o.zone)),
                o.counters@.len() != 0, obj_ref(o) + " still has counters in "@ + zone_name(o.zone)),
                o.regeneration_shields != 0, obj_ref(o) + " keeps a regeneration shield in "@ + zone_name(o.zone))
        } else {
            none
        },
        ObjectCheck::Creature => if o.zone == Zone::Battlefield && st.spec_card_types(o.id, &reg).contains(CardType::Creature) {
            match sp_pt(st, o.id, reg, false) {
                Some(t) => when(when(none, t <= 0, obj_ref(o) + " alive at toughness "@ + spec_signed_decimal(t)),
                    t > 0 && o.damage_marked >= t && !sp_has_keyword(st, o.id, Keyword::Indestructible, reg, EFFECT_DEPTH as nat),
                    obj_ref(o) + " alive with "@ + spec_decimal(o.damage_marked as nat) + " damage on toughness "@
                        + spec_signed_decimal(t)),
                None => none,
            }
        } else {
            none
        },
        ObjectCheck::HasPowerToughness => when(none, !object_ok(st, reg, c, k),
            "creature "@ + obj_ref(o) + " has no power/toughness"@),
        ObjectCheck::LoyaltyOnlyPlaneswalkers => when(none, !object_ok(st, reg, c, k),
            obj_ref(o) + " holds loyalty counters but is no planeswalker"@),
        ObjectCheck::Deathtouch => when(none, !object_ok(st, reg, c, k),
            obj_ref(o) + " alive with deathtouch damage marked on it"@),
        ObjectCheck::ZeroLoyalty => when(none, !object_ok(st, reg, c, k),
            "planeswalker "@ + obj_ref(o) + " alive at 0 loyalty"@),
        ObjectCheck::BothCounters => when(none, !object_ok(st, reg, ObjectCheck::BothCounters, k),
            obj_ref(o) + " holds both +1/+1 and -1/-1 counters"@),
    }
}

/// The messages of one check over the first `n` objects, in id order.
pub open spec fn each_object(st: GameState, reg: CardRegistry, c: ObjectCheck, n: nat) -> Seq<Seq<char>>
    decreases n,
{
    if n == 0 {
        Seq::empty()
    } else {
        each_object(st, reg, c, (n - 1) as nat) + object_messages(st, reg, c, n - 1)
    }
}

/// Every object passes the check.
pub open spec fn all_objects_ok(st: GameState, reg: CardRegistry, c: ObjectCheck) -> bool {
    forall|k: int| 0 <= k < st.objects@.len() ==> #[trigger] object_ok(st, reg, c, k)
}

/// The messages of one check over all the objects.
pub open spec fn objects_messages(st: GameState, reg: CardRegistry, c: ObjectCheck) -> Seq<Seq<char>> {
    each_object(st, reg, c, st.objects@.len())
}

/// Whether the stack zone's object is accounted for.
fn stack_holds(state: &GameState, id: ObjectId) -> (b: bool)
    ensures
        b == stack_accounts_for(*state, id),
{
    let mut s: usize = 0;
    while s < state.stack.len()
        invariant
            s <= state.stack@.len(),
            forall|j: int| 0 <= j < s ==> state.stack@[j] != StackEntry::Spell(id),
        decreases state.stack@.len() - s,
    {
        match &state.stack[s] {
            StackEntry::Spell(x) => {
                if *x == id {
                    assert(state.stack@[s as int] == StackEntry::Spell(id));
                    return true;
                }
            },
            _ => {},
        }
        s = s + 1;
    }
    if state.resolving_spell == Some(id) {
        return true;
    }
    match &state.pending_spell_cast {
        Some(c) => c.object_id == id,
        None => false,
    }
}

/// Whether following attachments from the object runs round a cycle.
fn sits_in_cycle(state: &GameState, id: ObjectId) -> (b: bool)
    ensures
        b == in_cycle(*state, id),
{
    let n = state.objects.len();
    let mut cur: Option<ObjectId> = Some(id);
    let mut k: usize = 0;
    while k < n
        invariant
            n == state.objects@.len(),
            k <= n,
            cur == attach_walk(*state, id, k as nat),
        decreases n - k,
    {
        cur = match cur {
            Some(x) => match state.get_object(x) {
                Some(o) => o.attached_to,
                None => None,
            },
            None => None,
        };
        k = k + 1;
    }
    cur = match cur {
        Some(x) => match state.get_object(x) {
            Some(o) => o.attached_to,
            None => None,
        },
        None => None,
    };
    cur.is_some()
}

/// Adds to `w` the message about `p` on the object when it names no player.
fn player_id_check(state: &GameState, o: &GameObject, what: &str, p: PlayerId, w: &mut Vec<String>)
    ensures
        views(final(w)@) == when(views(old(w)@), !is_player(*state, p), not_a_player(*state, *o, what@, p)),
        final(w)@.len() == 0 <==> old(w)@.len() == 0 && is_player(*state, p),
{
    if p.0 as usize >= state.players.len() {
        let mut m = obj_says(o, ": ");
        m.append(what);
        m.append(" p");
        add_num(&mut m, p.0 as u64);
        m.append(" is not a player (of ");
        add_num(&mut m, state.players.len() as u64);
        m.append(")");
        put(w, m);
    }
}

/// The messages of one check about the object at position `k`.
fn object_check(state: &GameState, registry: &CardRegistry, c: ObjectCheck, k: usize) -> (w: Vec<String>)
    requires
        k < state.objects@.len(),
        c == ObjectCheck::Creature || c == ObjectCheck::HasPowerToughness || c == ObjectCheck::Deathtouch ==> state.seated(),
    ensures
        views(w@) == object_messages(*state, *registry, c, k as int),
        w@.len() == 0 <==> object_ok(*state, *registry, c, k as int),
{
    let o = &state.objects[k];
    let mut w = no_messages();
    match c {
        ObjectCheck::Ids => {
            if k > 0 && state.objects[k - 1].id.0 >= o.id.0 {
                put(&mut w, note("object ", o.id.0, " not stored under its own id"));
            }
            if o.id.0 >= state.next_object_id {
                let mut m = note("object ", o.id.0, " at or past next_object_id ");
                add_num(&mut m, state.next_object_id);
                put(&mut w, m);
            }
        },
        ObjectCheck::AttachedBoth => {
            if o.attached_to.is_some() && o.attached_to_player.is_some() {
                put(&mut w, obj_says(o, " attached to both an object and a player"));
            }
        },
        ObjectCheck::StackZone => {
            if o.zone == Zone::Stack && !stack_holds(state, o.id) {
                put(&mut w, obj_says(o, " in stack zone but on no stack entry"));
            }
        },
        ObjectCheck::FutureAttack => {
            match o.attacked_on_turn {
                Some(t) => {
                    if t > state.turn_number {
                        let mut m = obj_says(o, " attacked on future turn ");
                        add_num(&mut m, t as u64);
                        put(&mut w, m);
                    }
                },
                None => {},
            }
        },
        ObjectCheck::CommandZone => {
            if o.zone == Zone::Command {
                put(&mut w, obj_says(o, " in the unused command zone"));
            }
        },
        ObjectCheck::Cycle => {
            if sits_in_cycle(state, o.id) {
                put(&mut w, obj_says(o, " sits in an attachment cycle"));
            }
        },
        ObjectCheck::Records => {
            player_id_check(state, o, "owner", o.owner, &mut w);
            player_id_check(state, o, "controller", o.controller, &mut w);
            match o.last_controller {
                Some(p) => player_id_check(state, o, "last_controller", p, &mut w),
                None => {},
            }
            match o.attached_to_player {
                Some(p) => player_id_check(state, o, "attached_to_player", p, &mut w),
                None => {},
            }
            match o.last_attached_to_player {
                Some(p) => player_id_check(state, o, "last_attached_to_player", p, &mut w),
                None => {},
            }
            identity_records_check(o, &mut w);
            status_records_check(o, &mut w);
            damage_records_check(o, &mut w);
        },
        ObjectCheck::Token => {
            if o.is_token && o.zone != Zone::Battlefield {
                let mut m = String::from_str("token ");
                let r = obj_ref_str(o);
                m.append(r.as_str());
                m.append(" still exists in ");
                m.append(zone_str(o.zone));
                put(&mut w, m);
            }
        },
        ObjectCheck::Markings => {
            if o.zone != Zone::Battlefield {
                if o.tapped {
                    put(&mut w, obj_in_zone(o, " tapped in "));
                }
                if o.damage_marked != 0 {
                    let mut m = obj_says(o, " has ");
                    add_num(&mut m, o.damage_marked as u64);
                    m.append(" damage marked in ");
                    m.append(zone_str(o.zone));
                    put(&mut w, m);
                }
                if o.attached_to.is_some() || o.attached_to_player.is_some() {
                    put(&mut w, obj_in_zone(o, " still attached in "));
                }
                if o.counters.len() != 0 {
                    put(&mut w, obj_in_zone(o, " still has counters in "));
                }
                if o.regeneration_shields != 0 {
                    put(&mut w, obj_in_zone(o, " keeps a regeneration shield in "));
                }
            }
        },
        ObjectCheck::Creature => {
            if o.zone == Zone::Battlefield && state.is_creature(o.id, registry) {
                match state.effective_pt_wide(o.id, registry, false) {
                    Some(t) => {
                        if t <= 0 {
                            let mut m = obj_says(o, " alive at toughness ");
                            let ts = signed_decimal_wide(t);
                            m.append(ts.as_str());
                            put(&mut w, m);
                        }
                        if t > 0 && o.damage_marked as i128 >= t && !state.has_keyword(o.id, Keyword::Indestructible, registry) {
                            let mut m = obj_says(o, " alive with ");
                            add_num(&mut m, o.damage_marked as u64);
                            m.append(" damage on toughness ");
                            let ts = signed_decimal_wide(t);
                            m.append(ts.as_str());
                            put(&mut w, m);
                        }
                    },
                    None => {},
                }
            }
        },
        ObjectCheck::HasPowerToughness => {
            if o.zone == Zone::Battlefield && state.is_creature(o.id, registry)
                && (state.effective_pt_wide(o.id, registry, true).is_none()
                    || state.effective_pt_wide(o.id, registry, false).is_none()) {
                let mut m = String::from_str("creature ");
                let r = obj_ref_str(o);
                m.append(r.as_str());
                m.append(" has no power/toughness");
                put(&mut w, m);
            }
        },
        ObjectCheck::LoyaltyOnlyPlaneswalkers => {
            if o.zone == Zone::Battlefield && get_counter_of(o, CounterType::Loyalty) > 0
                && !state.has_card_type(o.id, CardType::Planeswalker, registry) {
                put(&mut w, obj_says(o, " holds loyalty counters but is no planeswalker"));
            }
        },
        ObjectCheck::Deathtouch => {
            if o.zone == Zone::Battlefield && state.is_creature(o.id, registry) && o.dealt_deathtouch_damage
                && o.damage_marked > 0 && !state.has_keyword(o.id, Keyword::Indestructible, registry) {
                put(&mut w, obj_says(o, " alive with deathtouch damage marked on it"));
            }
        },
        ObjectCheck::ZeroLoyalty => {
            if o.zone == Zone::Battlefield && state.has_card_type(o.id, CardType::Planeswalker, registry)
                && get_counter_of(o, CounterType::Loyalty) == 0 {
                let mut m = String::from_str("planeswalker ");
                let r = obj_ref_str(o);
                m.append(r.as_str());
                m.append(" alive at 0 loyalty");
                put(&mut w, m);
            }
        },
        ObjectCheck::BothCounters => {
            if o.zone == Zone::Battlefield && get_counter_of(o, CounterType::PlusOnePlusOne) > 0
                && get_counter_of(o, CounterType::MinusOneMinusOne) > 0 {
                put(&mut w, obj_says(o, " holds both +1/+1 and -1/-1 counters"));
            }
        },
    }
    w
}

/// The messages of one check over all the objects, in id order.
fn objects_check(state: &GameState, registry: &CardRegistry, c: ObjectCheck) -> (w: Vec<String>)
    requires
        c == ObjectCheck::Creature || c == ObjectCheck::HasPowerToughness || c == ObjectCheck::Deathtouch ==> state.seated(),
    ensures
        views(w@) == objects_messages(*state, *registry, c),
        w@.len() == 0 <==> all_objects_ok(*state, *registry, c),
{
    let mut w = no_messages();
    let mut k: usize = 0;
    while k < state.objects.len()
        invariant
            k <= state.objects@.len(),
            c == ObjectCheck::Creature || c == ObjectCheck::HasPowerToughness || c == ObjectCheck::Deathtouch ==> state.seated(),
            views(w@) == each_object(*state, *registry, c, k as nat),
            w@.len() == 0 <==> forall|j: int| 0 <= j < k ==> #[trigger] object_ok(*state, *registry, c, j),
        decreases state.objects@.len() - k,
    {
        let m = object_check(state, registry, c, k);
        put_all(&mut w, m);
        k = k + 1;
    }
    w
}

// ----------------------------------------------------------------------
// The checks made player by player

/// The checks made on each player, one at a time.
#[derive(Clone, Copy, PartialEq, Eq, Structural)]
pub enum PlayerCheck {
    Ids,
    Loss,
}

/// What each check asks of the player at position `i`.
pub open spec fn player_ok(st: GameState, c: PlayerCheck, i: int) -> bool {
    let p = st.players@[i];
    match c {
        PlayerCheck::Ids => p.id.0 == i,
        PlayerCheck::Loss => (p.life <= 0 ==> p.lost) && (p.has_drawn_from_empty ==> p.lost),
    }
}

/// The messages of each check about the player at position `i`.
pub open spec fn player_messages(st: GameState, c: PlayerCheck, i: int) -> Seq<Seq<char>> {
    let p = st.players@[i];
    let none = Seq::<Seq<char>>::empty();
    match c {
        PlayerCheck::Ids => when(none, p.id.0 != i,
            "players["@ + spec_decimal(i as nat) + "] has id "@ + spec_decimal(p.id.0 as nat)),
        PlayerCheck::Loss => when(when(none,
            p.life <= 0 && !p.lost, "p"@ + spec_decimal(p.id.0 as nat) + " at "@ + spec_signed_decimal(p.life as int)
                + " life has not lost"@),
            p.has_drawn_from_empty && !p.lost,
            "p"@ + spec_decimal(p.id.0 as nat) + " drew from an empty library and has not lost"@),
    }
}

/// The messages of one check over the first `n` players.
pub open spec fn each_player(st: GameState, c: PlayerCheck, n: nat) -> Seq<Seq<char>>
    decreases n,
{
    if n == 0 {
        Seq::empty()
    } else {
        each_player(st, c, (n - 1) as nat) + player_messages(st, c, n - 1)
    }
}

/// Every player passes the check.
pub open spec fn all_players_ok(st: GameState, c: PlayerCheck) -> bool {
    forall|i: int| 0 <= i < st.players@.len() ==> #[trigger] player_ok(st, c, i)
}

/// The messages of one check over all the players.
pub open spec fn players_messages(st: GameState, c: PlayerCheck) -> Seq<Seq<char>> {
    each_player(st, c, st.players@.len())
}

fn player_check(state: &GameState, c: PlayerCheck, i: usize) -> (w: Vec<String>)
    requires
        i < state.players@.len(),
    ensures
        views(w@) == player_messages(*state, c, i as int),
        w@.len() == 0 <==> player_ok(*state, c, i as int),
{
    let p = &state.players[i];
    let mut w = no_messages();
    match c {
        PlayerCheck::Ids => {
            if p.id.0 as usize != i {
                let mut m = note("players[", i as u64, "] has id ");
                add_num(&mut m, p.id.0 as u64);
                put(&mut w, m);
            }
        },
        PlayerCheck::Loss => {
            if p.life <= 0 && !p.lost {
                let mut m = note("p", p.id.0 as u64, " at ");
                let l = signed_decimal(p.life as i64);
                m.append(l.as_str());
                m.append(" life has not lost");
                put(&mut w, m);
            }
            if p.has_drawn_from_empty && !p.lost {
                put(&mut w, note("p", p.id.0 as u64, " drew from an empty library and has not lost"));
            }
        },
    }
    w
}

fn players_check(state: &GameState, c: PlayerCheck) -> (w: Vec<String>)
    ensures
        views(w@) == players_messages(*state, c),
        w@.len() == 0 <==> all_players_ok(*state, c),
{
    let mut w = no_messages();
    let mut i: usize = 0;
    while i < state.players.len()
        invariant
            i <= state.players@.len(),
            views(w@) == each_player(*state, c, i as nat),
            w@.len() == 0 <==> forall|j: int| 0 <= j < i ==> #[trigger] player_ok(*state, c, j),
        decreases state.players@.len() - i,
    {
        let m = player_check(state, c, i);
        put_all(&mut w, m);
        i = i + 1;
    }
    w
}

// ----------------------------------------------------------------------
// Turn, priority and event bookkeeping

/// The player whose turn it is and the one with priority are players.
pub open spec fn turn_holders_ok(st: GameState) -> bool {
    &&& is_player(st, st.active_player)
    &&& (st.priority_player matches Some(p) ==> is_player(st, p))
}

pub open spec fn turn_holder_messages(st: GameState) -> Seq<Seq<char>> {
    when(when(Seq::empty(),
        !is_player(st, st.active_player),
        "active_player "@ + spec_decimal(st.active_player.0 as nat) + " out of range"@),
        bad_player(st, st.priority_player),
        "priority_player "@ + spec_decimal(st.priority_player.unwrap().0 as nat) + " out of range"@)
}

fn turn_holders_check(state: &GameState) -> (w: Vec<String>)
    ensures
        views(w@) == turn_holder_messages(*state),
        w@.len() == 0 <==> turn_holders_ok(*state),
{
    let mut w = no_messages();
    if state.active_player.0 as usize >= state.players.len() {
        put(&mut w, note("active_player ", state.active_player.0 as u64, " out of range"));
    }
    match state.priority_player {
        Some(p) => {
            if p.0 as usize >= state.players.len() {
                put(&mut w, note("priority_player ", p.0 as u64, " out of range"));
            }
        },
        None => {},
    }
    w
}

/// The trigger pass has not run ahead of the events that exist.
pub open spec fn event_index_messages(st: GameState) -> Seq<Seq<char>> {
    when(Seq::empty(), st.book.trigger_event_index > st.events@.len(),
        "trigger_event_index "@ + spec_decimal(st.book.trigger_event_index as nat) + " past the "@
            + spec_decimal(st.events@.len()) + " events that exist"@)
}

fn event_index_check(state: &GameState) -> (w: Vec<String>)
    ensures
        views(w@) == event_index_messages(*state),
        w@.len() == 0 <==> state.book.trigger_event_index <= state.events@.len(),
{
    let mut w = no_messages();
    if state.book.trigger_event_index > state.events.len() {
        let mut m = note("trigger_event_index ", state.book.trigger_event_index as u64, " past the ");
        add_num(&mut m, state.events.len() as u64);
        m.append(" events that exist");
        put(&mut w, m);
    }
    w
}

// ----------------------------------------------------------------------
// Libraries (CR 401.2)

/// How a library message begins: the player it is about.
pub open spec fn lib_head(who: PlayerId) -> Seq<char> {
    "p"@ + spec_decimal(who.0 as nat) + ": "@
}

/// The entry at `a` of player `p`'s library order is listed once and is a
/// card of theirs in their library.
pub open spec fn library_entry_ok(st: GameState, p: int, a: int) -> bool {
    let lo = st.players@[p].library_order@;
    &&& forall|b: int| 0 <= b < a ==> lo[b] != lo[a]
    &&& st.spec_obj(lo[a]) matches Some(o) && o.zone == Zone::Library && o.owner == st.players@[p].id
}

pub open spec fn library_entry_messages(st: GameState, p: int, a: int) -> Seq<Seq<char>> {
    let lo = st.players@[p].library_order@;
    let who = st.players@[p].id;
    let id = lo[a];
    let twice = when(Seq::empty(), exists|b: int| 0 <= b < a && lo[b] == id,
        lib_head(who) + spec_decimal(id.0 as nat) + " listed twice in library_order"@);
    match st.spec_obj(id) {
        None => twice.push(lib_head(who) + "library_order lists missing object "@ + spec_decimal(id.0 as nat)),
        Some(o) => when(when(twice,
            o.zone != Zone::Library,
            lib_head(who) + "library_order lists "@ + spec_decimal(id.0 as nat) + " but its zone is "@ + zone_name(o.zone)),
            o.owner != who,
            lib_head(who) + "library_order lists "@ + spec_decimal(id.0 as nat) + " owned by p"@ + spec_decimal(o.owner.0 as nat)),
    }
}

pub open spec fn each_library_entry(st: GameState, p: int, n: nat) -> Seq<Seq<char>>
    decreases n,
{
    if n == 0 {
        Seq::empty()
    } else {
        each_library_entry(st, p, (n - 1) as nat) + library_entry_messages(st, p, n - 1)
    }
}

/// The object at `k` is listed in its owner's library order if it is in
/// a library.
pub open spec fn library_card_ok(st: GameState, p: int, k: int) -> bool {
    let o = st.objects@[k];
    o.zone == Zone::Library && o.owner == st.players@[p].id ==> st.players@[p].library_order@.contains(o.id)
}

pub open spec fn library_card_messages(st: GameState, p: int, k: int) -> Seq<Seq<char>> {
    let o = st.objects@[k];
    when(Seq::empty(), !library_card_ok(st, p, k),
        lib_head(st.players@[p].id) + obj_ref(o) + " in library zone but not in library_order"@)
}

pub open spec fn each_library_card(st: GameState, p: int, n: nat) -> Seq<Seq<char>>
    decreases n,
{
    if n == 0 {
        Seq::empty()
    } else {
        each_library_card(st, p, (n - 1) as nat) + library_card_messages(st, p, n - 1)
    }
}

/// A player's library order and the cards in their library are the same
/// cards, each listed once (CR 401.2).
pub open spec fn library_ok(st: GameState, p: int) -> bool {
    &&& forall|a: int| 0 <= a < st.players@[p].library_order@.len() ==> #[trigger] library_entry_ok(st, p, a)
    &&& forall|k: int| 0 <= k < st.objects@.len() ==> #[trigger] library_card_ok(st, p, k)
}

pub open spec fn library_messages(st: GameState, p: int) -> Seq<Seq<char>> {
    each_library_entry(st, p, st.players@[p].library_order@.len())
        + each_library_card(st, p, st.objects@.len())
}

pub open spec fn each_library(st: GameState, n: nat) -> Seq<Seq<char>>
    decreases n,
{
    if n == 0 {
        Seq::empty()
    } else {
        each_library(st, (n - 1) as nat) + library_messages(st, n - 1)
    }
}

fn library_entry_check(state: &GameState, p: usize, a: usize) -> (w: Vec<String>)
    requires
        p < state.players@.len(),
        a < state.players@[p as int].library_order@.len(),
    ensures
        views(w@) == library_entry_messages(*state, p as int, a as int),
        w@.len() == 0 <==> library_entry_ok(*state, p as int, a as int),
{
    let lo = &state.players[p].library_order;
    let who = state.players[p].id;
    let id = lo[a];
    let mut w = no_messages();
    let mut twice = false;
    let mut b: usize = 0;
    while b < a
        invariant
            b <= a < lo@.len(),
            id == lo@[a as int],
            twice <==> exists|x: int| 0 <= x < b && lo@[x] == id,
        decreases a - b,
    {
        if lo[b] == id {
            twice = true;
        }
        b = b + 1;
    }
    let head = note("p", who.0 as u64, ": ");
    if twice {
        let mut m = head.clone();
        add_num(&mut m, id.0);
        m.append(" listed twice in library_order");
        put(&mut w, m);
    }
    match state.get_object(id) {
        None => {
            let mut m = head.clone();
            m.append("library_order lists missing object ");
            add_num(&mut m, id.0);
            put(&mut w, m);
        },
        Some(o) => {
            if o.zone != Zone::Library {
                let mut m = head.clone();
                m.append("library_order lists ");
                add_num(&mut m, id.0);
                m.append(" but its zone is ");
                m.append(zone_str(o.zone));
                put(&mut w, m);
            }
            if o.owner != who {
                let mut m = head.clone();
                m.append("library_order lists ");
                add_num(&mut m, id.0);
                m.append(" owned by p");
                add_num(&mut m, o.owner.0 as u64);
                put(&mut w, m);
            }
        },
    }
    w
}

fn library_check(state: &GameState, p: usize) -> (w: Vec<String>)
    requires
        p < state.players@.len(),
    ensures
        views(w@) == library_messages(*state, p as int),
        w@.len() == 0 <==> library_ok(*state, p as int),
{
    let lo = &state.players[p].library_order;
    let who = state.players[p].id;
    let mut w = no_messages();
    let mut a: usize = 0;
    while a < lo.len()
        invariant
            p < state.players@.len(),
            *lo == state.players@[p as int].library_order,
            a <= lo@.len(),
            views(w@) == each_library_entry(*state, p as int, a as nat),
            w@.len() == 0 <==> forall|x: int| 0 <= x < a ==> #[trigger] library_entry_ok(*state, p as int, x),
        decreases lo@.len() - a,
    {
        let m = library_entry_check(state, p, a);
        put_all(&mut w, m);
        a = a + 1;
    }
    let ghost w1 = w@;
    let mut u = no_messages();
    let mut k: usize = 0;
    while k < state.objects.len()
        invariant
            p < state.players@.len(),
            *lo == state.players@[p as int].library_order,
            who == state.players@[p as int].id,
            k <= state.objects@.len(),
            views(u@) == each_library_card(*state, p as int, k as nat),
            u@.len() == 0 <==> forall|x: int| 0 <= x < k ==> #[trigger] library_card_ok(*state, p as int, x),
        decreases state.objects@.len() - k,
    {
        let o = &state.objects[k];
        let mut m = no_messages();
        if o.zone == Zone::Library && o.owner == who && !crate::util::contains_id(lo, o.id) {
            let mut s = note("p", who.0 as u64, ": ");
            let r = obj_ref_str(o);
            s.append(r.as_str());
            s.append(" in library zone but not in library_order");
            put(&mut m, s);
        }
        assert(m@.len() == 0 <==> library_card_ok(*state, p as int, k as int));
        put_all(&mut u, m);
        k = k + 1;
    }
    put_all(&mut w, u);
    w
}

fn libraries_check(state: &GameState) -> (w: Vec<String>)
    ensures
        views(w@) == each_library(*state, state.players@.len()),
        w@.len() == 0 <==> forall|p: int| 0 <= p < state.players@.len() ==> #[trigger] library_ok(*state, p),
{
    let mut w = no_messages();
    let mut p: usize = 0;
    while p < state.players.len()
        invariant
            p <= state.players@.len(),
            views(w@) == each_library(*state, p as nat),
            w@.len() == 0 <==> forall|q: int| 0 <= q < p ==> #[trigger] library_ok(*state, q),
        decreases state.players@.len() - p,
    {
        let m = library_check(state, p);
        put_all(&mut w, m);
        p = p + 1;
    }
    w
}

// ----------------------------------------------------------------------
// The stack

/// The entry at `s` is no spell, or a spell that is an object in the stack
/// zone.
pub open spec fn stack_entry_ok(st: GameState, s: int) -> bool {
    st.stack@[s] matches StackEntry::Spell(id) ==> (st.spec_obj(id) matches Some(o) && o.zone == Zone::Stack)
}

pub open spec fn stack_entry_messages(st: GameState, s: int) -> Seq<Seq<char>> {
    match st.stack@[s] {
        StackEntry::Spell(id) => match st.spec_obj(id) {
            None => Seq::empty().push("stack entry Spell("@ + spec_decimal(id.0 as nat) + ") has no object"@),
            Some(o) => when(Seq::empty(), o.zone != Zone::Stack,
                "stack entry Spell("@ + spec_decimal(id.0 as nat) + ") is in zone "@ + zone_name(o.zone)),
        },
        _ => Seq::empty(),
    }
}

pub open spec fn each_stack_entry(st: GameState, n: nat) -> Seq<Seq<char>>
    decreases n,
{
    if n == 0 {
        Seq::empty()
    } else {
        each_stack_entry(st, (n - 1) as nat) + stack_entry_messages(st, n - 1)
    }
}

fn stack_entries_check(state: &GameState) -> (w: Vec<String>)
    ensures
        views(w@) == each_stack_entry(*state, state.stack@.len()),
        w@.len() == 0 <==> forall|s: int| 0 <= s < state.stack@.len() ==> #[trigger] stack_entry_ok(*state, s),
{
    let mut w = no_messages();
    let mut s: usize = 0;
    while s < state.stack.len()
        invariant
            s <= state.stack@.len(),
            views(w@) == each_stack_entry(*state, s as nat),
            w@.len() == 0 <==> forall|j: int| 0 <= j < s ==> #[trigger] stack_entry_ok(*state, j),
        decreases state.stack@.len() - s,
    {
        let mut m = no_messages();
        match &state.stack[s] {
            StackEntry::Spell(id) => {
                match state.get_object(*id) {
                    None => put(&mut m, note("stack entry Spell(", id.0, ") has no object")),
                    Some(o) => {
                        if o.zone != Zone::Stack {
                            let mut t = note("stack entry Spell(", id.0, ") is in zone ");
                            t.append(zone_str(o.zone));
                            put(&mut m, t);
                        }
                    },
                }
            },
            _ => {},
        }
        assert(m@.len() == 0 <==> stack_entry_ok(*state, s as int));
        put_all(&mut w, m);
        s = s + 1;
    }
    w
}

// ----------------------------------------------------------------------
// Combat (CR 508.1)

/// The creature was declared as an attacker.
pub open spec fn was_declared(c: CombatState, id: ObjectId) -> bool {
    exists|a: int| 0 <= a < c.attackers@.len() && (#[trigger] c.attackers@[a]).0 == id
}

/// The attackers the blocks are recorded against.
pub open spec fn assigned_attackers(c: CombatState) -> Seq<ObjectId> {
    c.blocker_assignments@.map_values(|e: (ObjectId, Vec<ObjectId>)| e.0)
}

/// The attackers the planeswalker attacks are recorded for.
pub open spec fn planeswalker_attackers(c: CombatState) -> Seq<ObjectId> {
    c.planeswalker_defenders@.map_values(|e: (ObjectId, ObjectId)| e.0)
}

/// One message for each of the first `n` ids that never attacked.
pub open spec fn never_attacked(c: CombatState, ids: Seq<ObjectId>, label: Seq<char>, n: nat) -> Seq<Seq<char>>
    decreases n,
{
    if n == 0 {
        Seq::empty()
    } else {
        when(never_attacked(c, ids, label, (n - 1) as nat), !was_declared(c, ids[n - 1]),
            label + " holds "@ + spec_decimal(ids[n - 1].0 as nat) + " which never attacked"@)
    }
}

/// The latest assignment before `i` whose blockers include `b`.
pub open spec fn latest_holder(asg: Seq<(ObjectId, Vec<ObjectId>)>, i: int, b: ObjectId) -> Option<int>
    decreases i,
{
    if i <= 0 {
        None
    } else if asg[i - 1].1@.contains(b) {
        Some(i - 1)
    } else {
        latest_holder(asg, i - 1, b)
    }
}

/// The blocker at `j` of the assignment at `i` is listed there once.
pub open spec fn listed_before(c: CombatState, i: int, j: int) -> bool {
    let l = c.blocker_assignments@[i].1@;
    exists|x: int| 0 <= x < j && l[x] == l[j]
}

/// The blocker at `j` of the assignment at `i` was already assigned to
/// another attacker by an earlier assignment.
pub open spec fn blocks_two(c: CombatState, i: int, j: int) -> bool {
    let asg = c.blocker_assignments@;
    !listed_before(c, i, j) && (latest_holder(asg, i, asg[i].1@[j]) matches Some(h) && asg[h].0 != asg[i].0)
}

/// A creature blocks at most one attacker, once (CR 509.1b).
pub open spec fn block_ok(c: CombatState, i: int, j: int) -> bool {
    !listed_before(c, i, j) && !blocks_two(c, i, j)
}

pub open spec fn block_messages(c: CombatState, i: int, j: int) -> Seq<Seq<char>> {
    let asg = c.blocker_assignments@;
    let a = asg[i].0;
    let b = asg[i].1@[j];
    when(when(Seq::empty(),
        listed_before(c, i, j),
        "blocker "@ + spec_decimal(b.0 as nat) + " listed twice against attacker "@ + spec_decimal(a.0 as nat)),
        blocks_two(c, i, j),
        "blocker "@ + spec_decimal(b.0 as nat) + " assigned to attackers "@
            + spec_decimal(asg[latest_holder(asg, i, b).unwrap()].0.0 as nat) + " and "@ + spec_decimal(a.0 as nat)
            + " at once (CR 509.1b)"@)
}

pub open spec fn each_block_in(c: CombatState, i: int, n: nat) -> Seq<Seq<char>>
    decreases n,
{
    if n == 0 {
        Seq::empty()
    } else {
        each_block_in(c, i, (n - 1) as nat) + block_messages(c, i, n - 1)
    }
}

pub open spec fn each_assignment(c: CombatState, n: nat) -> Seq<Seq<char>>
    decreases n,
{
    if n == 0 {
        Seq::empty()
    } else {
        each_assignment(c, (n - 1) as nat)
            + each_block_in(c, n - 1, c.blocker_assignments@[n - 1].1@.len())
    }
}

/// The blocks of the assignment at `i` are all in order.
pub open spec fn assignment_ok(c: CombatState, i: int) -> bool {
    forall|j: int| 0 <= j < c.blocker_assignments@[i].1@.len() ==> #[trigger] block_ok(c, i, j)
}

/// The combat bookkeeping names only declared attackers.
pub open spec fn combat_core_ok(st: GameState) -> bool {
    st.combat matches Some(c) ==> {
        &&& forall|b: int| 0 <= b < c.blocked_attackers@.len() ==> was_declared(c, #[trigger] c.blocked_attackers@[b])
        &&& forall|b: int| 0 <= b < c.blocker_assignments@.len() ==> was_declared(c, (#[trigger] c.blocker_assignments@[b]).0)
        &&& forall|b: int| 0 <= b < c.planeswalker_defenders@.len() ==> was_declared(c, (#[trigger] c.planeswalker_defenders@[b]).0)
        &&& forall|i: int| 0 <= i < c.blocker_assignments@.len() ==> #[trigger] assignment_ok(c, i)
    }
}

pub open spec fn combat_messages(st: GameState) -> Seq<Seq<char>> {
    match st.combat {
        Some(c) => never_attacked(c, c.blocked_attackers@, "blocked_attackers"@, c.blocked_attackers@.len())
            + never_attacked(c, assigned_attackers(c), "blocker_assignments"@, c.blocker_assignments@.len())
            + never_attacked(c, planeswalker_attackers(c), "planeswalker_defenders"@, c.planeswalker_defenders@.len())
            + each_assignment(c, c.blocker_assignments@.len()),
        None => Seq::empty(),
    }
}

/// Whether the object was declared as an attacker.
fn declared_attacker(c: &CombatState, id: ObjectId) -> (b: bool)
    ensures
        b == was_declared(*c, id),
{
    let mut a: usize = 0;
    while a < c.attackers.len()
        invariant
            a <= c.attackers@.len(),
            forall|x: int| 0 <= x < a ==> (#[trigger] c.attackers@[x]).0 != id,
        decreases c.attackers@.len() - a,
    {
        if c.attackers[a].0 == id {
            assert(c.attackers@[a as int].0 == id);
            return true;
        }
        a = a + 1;
    }
    false
}

/// The message about an id that never attacked, when it did not.
fn never_attacked_check(c: &CombatState, id: ObjectId, label: &str, w: &mut Vec<String>, Ghost(ids): Ghost<Seq<ObjectId>>, Ghost(n): Ghost<nat>)
    requires
        views(old(w)@) == never_attacked(*c, ids, label@, n),
        n < ids.len(),
        ids[n as int] == id,
    ensures
        views(final(w)@) == never_attacked(*c, ids, label@, n + 1),
        final(w)@.len() == old(w)@.len() <==> was_declared(*c, id),
        final(w)@.len() >= old(w)@.len(),
{
    if !declared_attacker(c, id) {
        let mut m = String::from_str(label);
        m.append(" holds ");
        add_num(&mut m, id.0);
        m.append(" which never attacked");
        put(w, m);
    }
}

/// The latest assignment before `i` whose blockers include `b`.
fn latest_holder_of(c: &CombatState, i: usize, b: ObjectId) -> (r: Option<usize>)
    requires
        i <= c.blocker_assignments@.len(),
    ensures
        match r {
            Some(h) => latest_holder(c.blocker_assignments@, i as int, b) == Some(h as int),
            None => latest_holder(c.blocker_assignments@, i as int, b) is None,
        },
        r matches Some(h) ==> h < i,
{
    let mut k: usize = i;
    while k > 0
        invariant
            k <= i <= c.blocker_assignments@.len(),
            latest_holder(c.blocker_assignments@, i as int, b) == latest_holder(c.blocker_assignments@, k as int, b),
        decreases k,
    {
        if crate::util::contains_id(&c.blocker_assignments[k - 1].1, b) {
            return Some(k - 1);
        }
        k = k - 1;
    }
    None
}

fn block_check(c: &CombatState, i: usize, j: usize) -> (w: Vec<String>)
    requires
        i < c.blocker_assignments@.len(),
        j < c.blocker_assignments@[i as int].1@.len(),
    ensures
        views(w@) == block_messages(*c, i as int, j as int),
        w@.len() == 0 <==> block_ok(*c, i as int, j as int),
{
    let l = &c.blocker_assignments[i].1;
    let a = c.blocker_assignments[i].0;
    let b = l[j];
    let mut w = no_messages();
    let mut twice = false;
    let mut x: usize = 0;
    while x < j
        invariant
            x <= j < l@.len(),
            b == l@[j as int],
            twice <==> exists|y: int| 0 <= y < x && l@[y] == b,
        decreases j - x,
    {
        if l[x] == b {
            twice = true;
        }
        x = x + 1;
    }
    if twice {
        let mut m = note("blocker ", b.0, " listed twice against attacker ");
        add_num(&mut m, a.0);
        put(&mut w, m);
    } else {
        match latest_holder_of(c, i, b) {
            Some(h) => {
                let prev = c.blocker_assignments[h].0;
                if prev != a {
                    let mut m = note("blocker ", b.0, " assigned to attackers ");
                    add_num(&mut m, prev.0);
                    m.append(" and ");
                    add_num(&mut m, a.0);
                    m.append(" at once (CR 509.1b)");
                    put(&mut w, m);
                }
            },
            None => {},
        }
    }
    w
}

/// One message for each block beyond one per creature.
fn blocks_check(c: &CombatState) -> (w: Vec<String>)
    ensures
        views(w@) == each_assignment(*c, c.blocker_assignments@.len()),
        w@.len() == 0 <==> forall|i: int| 0 <= i < c.blocker_assignments@.len() ==> #[trigger] assignment_ok(*c, i),
{
    let mut w = no_messages();
    let mut i: usize = 0;
    while i < c.blocker_assignments.len()
        invariant
            i <= c.blocker_assignments@.len(),
            views(w@) == each_assignment(*c, i as nat),
            w@.len() == 0 <==> forall|x: int| 0 <= x < i ==> #[trigger] assignment_ok(*c, x),
        decreases c.blocker_assignments@.len() - i,
    {
        let mut u = no_messages();
        let mut j: usize = 0;
        while j < c.blocker_assignments[i].1.len()
            invariant
                i < c.blocker_assignments@.len(),
                j <= c.blocker_assignments@[i as int].1@.len(),
                views(u@) == each_block_in(*c, i as int, j as nat),
                u@.len() == 0 <==> forall|y: int| 0 <= y < j ==> #[trigger] block_ok(*c, i as int, y),
            decreases c.blocker_assignments@[i as int].1@.len() - j,
        {
            put_all(&mut u, block_check(c, i, j));
            j = j + 1;
        }
        assert(u@.len() == 0 <==> assignment_ok(*c, i as int));
        put_all(&mut w, u);
        i = i + 1;
    }
    w
}

fn combat_check(state: &GameState) -> (w: Vec<String>)
    ensures
        views(w@) == combat_messages(*state),
        w@.len() == 0 <==> combat_core_ok(*state),
{
    let c = match &state.combat {
        Some(c) => c,
        None => return no_messages(),
    };
    let mut w = no_messages();
    let mut b: usize = 0;
    while b < c.blocked_attackers.len()
        invariant
            b <= c.blocked_attackers@.len(),
            views(w@) == never_attacked(*c, c.blocked_attackers@, "blocked_attackers"@, b as nat),
            w@.len() == 0 <==> forall|x: int| 0 <= x < b ==> was_declared(*c, #[trigger] c.blocked_attackers@[x]),
        decreases c.blocked_attackers@.len() - b,
    {
        never_attacked_check(c, c.blocked_attackers[b], "blocked_attackers", &mut w, Ghost(c.blocked_attackers@), Ghost(b as nat));
        assert(forall|x: int| 0 <= x < b + 1 ==> was_declared(*c, #[trigger] c.blocked_attackers@[x])
            <== (forall|x: int| 0 <= x < b ==> was_declared(*c, #[trigger] c.blocked_attackers@[x])) && was_declared(*c, c.blocked_attackers@[b as int]));
        b = b + 1;
    }
    let mut u = no_messages();
    let mut b: usize = 0;
    while b < c.blocker_assignments.len()
        invariant
            b <= c.blocker_assignments@.len(),
            views(u@) == never_attacked(*c, assigned_attackers(*c), "blocker_assignments"@, b as nat),
            u@.len() == 0 <==> forall|x: int| 0 <= x < b ==> was_declared(*c, (#[trigger] c.blocker_assignments@[x]).0),
        decreases c.blocker_assignments@.len() - b,
    {
        never_attacked_check(c, c.blocker_assignments[b].0, "blocker_assignments", &mut u, Ghost(assigned_attackers(*c)), Ghost(b as nat));
        assert(forall|x: int| 0 <= x < b + 1 ==> was_declared(*c, (#[trigger] c.blocker_assignments@[x]).0)
            <== (forall|x: int| 0 <= x < b ==> was_declared(*c, (#[trigger] c.blocker_assignments@[x]).0)) && was_declared(*c, c.blocker_assignments@[b as int].0));
        b = b + 1;
    }
    put_all(&mut w, u);
    let mut u = no_messages();
    let mut b: usize = 0;
    while b < c.planeswalker_defenders.len()
        invariant
            b <= c.planeswalker_defenders@.len(),
            views(u@) == never_attacked(*c, planeswalker_attackers(*c), "planeswalker_defenders"@, b as nat),
            u@.len() == 0 <==> forall|x: int| 0 <= x < b ==> was_declared(*c, (#[trigger] c.planeswalker_defenders@[x]).0),
        decreases c.planeswalker_defenders@.len() - b,
    {
        never_attacked_check(c, c.planeswalker_defenders[b].0, "planeswalker_defenders", &mut u, Ghost(planeswalker_attackers(*c)), Ghost(b as nat));
        assert(forall|x: int| 0 <= x < b + 1 ==> was_declared(*c, (#[trigger] c.planeswalker_defenders@[x]).0)
            <== (forall|x: int| 0 <= x < b ==> was_declared(*c, (#[trigger] c.planeswalker_defenders@[x]).0)) && was_declared(*c, c.planeswalker_defenders@[b as int].0));
        b = b + 1;
    }
    put_all(&mut w, u);
    put_all(&mut w, blocks_check(c));
    w
}

// ----------------------------------------------------------------------
// The events of the current action

/// The attacker at `j` of a declaration was listed before it (CR 508.1a:
/// attackers are declared as a set).
pub open spec fn repeated_attacker(att: Seq<(ObjectId, PlayerId)>, j: int) -> bool {
    exists|x: int| 0 <= x < j && att[x].0 == att[j].0
}

pub open spec fn each_repeat(att: Seq<(ObjectId, PlayerId)>, n: nat) -> Seq<Seq<char>>
    decreases n,
{
    if n == 0 {
        Seq::empty()
    } else {
        when(each_repeat(att, (n - 1) as nat), repeated_attacker(att, n - 1),
            "AttackersDeclared lists attacker "@ + spec_decimal(att[n - 1].0.0 as nat) + " more than once"@)
    }
}

/// The event at `i` declares no attacker twice.
pub open spec fn declaration_ok(st: GameState, i: int) -> bool {
    st.events@[i] matches GameEvent::AttackersDeclared { attackers }
        ==> forall|j: int| 0 <= j < attackers@.len() ==> !#[trigger] repeated_attacker(attackers@, j)
}

pub open spec fn declaration_messages(st: GameState, i: int) -> Seq<Seq<char>> {
    match st.events@[i] {
        GameEvent::AttackersDeclared { attackers } => each_repeat(attackers@, attackers@.len()),
        _ => Seq::empty(),
    }
}

pub open spec fn each_declaration(st: GameState, n: nat) -> Seq<Seq<char>>
    decreases n,
{
    if n == 0 {
        Seq::empty()
    } else {
        each_declaration(st, (n - 1) as nat) + declaration_messages(st, n - 1)
    }
}

/// The life the last of the first `n` events that changed `p`'s life left
/// them at.
pub open spec fn last_life(ev: Seq<GameEvent>, n: int, p: PlayerId) -> Option<i32>
    decreases n,
{
    if n <= 0 {
        None
    } else {
        match ev[n - 1] {
            GameEvent::LifeChanged { player, old: _, new_life } => if player == p {
                Some(new_life)
            } else {
                last_life(ev, n - 1, p)
            },
            _ => last_life(ev, n - 1, p),
        }
    }
}

/// The life change at `i` starts where the player's previous one ended.
pub open spec fn life_link_ok(st: GameState, i: int) -> bool {
    st.events@[i] matches GameEvent::LifeChanged { player, old, new_life: _ }
        ==> (last_life(st.events@, i, player) matches Some(prev) ==> prev == old)
}

pub open spec fn life_link_messages(st: GameState, i: int) -> Seq<Seq<char>> {
    match st.events@[i] {
        GameEvent::LifeChanged { player, old, new_life: _ } => when(Seq::empty(), !life_link_ok(st, i),
            "p"@ + spec_decimal(player.0 as nat) + ": LifeChanged chain breaks ("@
                + spec_signed_decimal(last_life(st.events@, i, player).unwrap() as int) + " -> event starting at "@
                + spec_signed_decimal(old as int) + ")"@),
        _ => Seq::empty(),
    }
}

pub open spec fn each_life_link(st: GameState, n: nat) -> Seq<Seq<char>>
    decreases n,
{
    if n == 0 {
        Seq::empty()
    } else {
        each_life_link(st, (n - 1) as nat) + life_link_messages(st, n - 1)
    }
}

/// The players whose life the last events are held against: those whose
/// ids fit a player id.
pub open spec fn life_seats(st: GameState) -> nat {
    if st.players@.len() <= 256 { st.players@.len() } else { 256 }
}

/// Player `q`'s life is what their last life change left it at.
pub open spec fn life_end_ok(st: GameState, q: int) -> bool {
    last_life(st.events@, st.events@.len() as int, PlayerId(q as u8)) matches Some(n) ==> st.players@[q].life == n
}

pub open spec fn life_end_messages(st: GameState, q: int) -> Seq<Seq<char>> {
    when(Seq::empty(), !life_end_ok(st, q),
        "p"@ + spec_decimal(q as nat) + ": last LifeChanged says "@
            + spec_signed_decimal(last_life(st.events@, st.events@.len() as int, PlayerId(q as u8)).unwrap() as int)
            + " but life is "@ + spec_signed_decimal(st.players@[q].life as int))
}

pub open spec fn each_life_end(st: GameState, n: nat) -> Seq<Seq<char>>
    decreases n,
{
    if n == 0 {
        Seq::empty()
    } else {
        each_life_end(st, (n - 1) as nat) + life_end_messages(st, n - 1)
    }
}

/// The events of the current action declare attackers as sets and change
/// each player's life in one unbroken chain that ends at their life.
pub open spec fn events_core_ok(st: GameState) -> bool {
    &&& forall|i: int| 0 <= i < st.events@.len() ==> #[trigger] declaration_ok(st, i)
    &&& forall|i: int| 0 <= i < st.events@.len() ==> #[trigger] life_link_ok(st, i)
    &&& forall|q: int| 0 <= q < life_seats(st) ==> #[trigger] life_end_ok(st, q)
}

pub open spec fn events_messages(st: GameState) -> Seq<Seq<char>> {
    each_declaration(st, st.events@.len()) + each_life_link(st, st.events@.len()) + each_life_end(st, life_seats(st))
}

/// The life the last of the first `n` events that changed `p`'s life left
/// them at.
fn last_life_of(events: &Vec<GameEvent>, n: usize, p: PlayerId) -> (r: Option<i32>)
    requires
        n <= events@.len(),
    ensures
        r == last_life(events@, n as int, p),
{
    let mut k: usize = n;
    while k > 0
        invariant
            k <= n <= events@.len(),
            last_life(events@, n as int, p) == last_life(events@, k as int, p),
        decreases k,
    {
        match &events[k - 1] {
            GameEvent::LifeChanged { player, old: _, new_life } => {
                if *player == p {
                    return Some(*new_life);
                }
            },
            _ => {},
        }
        k = k - 1;
    }
    None
}

fn events_check(state: &GameState) -> (w: Vec<String>)
    ensures
        views(w@) == events_messages(*state),
        w@.len() == 0 <==> events_core_ok(*state),
{
    let ev = &state.events;
    let mut w = no_messages();
    let mut i: usize = 0;
    while i < ev.len()
        invariant
            *ev == state.events,
            i <= ev@.len(),
            views(w@) == each_declaration(*state, i as nat),
            w@.len() == 0 <==> forall|x: int| 0 <= x < i ==> #[trigger] declaration_ok(*state, x),
        decreases ev@.len() - i,
    {
        let mut u = no_messages();
        match &ev[i] {
            GameEvent::AttackersDeclared { attackers } => {
                let mut j: usize = 0;
                while j < attackers.len()
                    invariant
                        j <= attackers@.len(),
                        views(u@) == each_repeat(attackers@, j as nat),
                        u@.len() == 0 <==> forall|y: int| 0 <= y < j ==> !#[trigger] repeated_attacker(attackers@, y),
                    decreases attackers@.len() - j,
                {
                    let id = attackers[j].0;
                    let mut seen = false;
                    let mut x: usize = 0;
                    while x < j
                        invariant
                            x <= j < attackers@.len(),
                            id == attackers@[j as int].0,
                            seen <==> exists|y: int| 0 <= y < x && attackers@[y].0 == id,
                        decreases j - x,
                    {
                        if attackers[x].0 == id {
                            seen = true;
                        }
                        x = x + 1;
                    }
                    if seen {
                        put(&mut u, note("AttackersDeclared lists attacker ", id.0, " more than once"));
                    }
                    assert(seen == repeated_attacker(attackers@, j as int));
                    j = j + 1;
                }
            },
            _ => {},
        }
        assert(u@.len() == 0 <==> declaration_ok(*state, i as int));
        put_all(&mut w, u);
        i = i + 1;
    }
    let mut u = no_messages();
    let mut i: usize = 0;
    while i < ev.len()
        invariant
            *ev == state.events,
            i <= ev@.len(),
            views(u@) == each_life_link(*state, i as nat),
            u@.len() == 0 <==> forall|x: int| 0 <= x < i ==> #[trigger] life_link_ok(*state, x),
        decreases ev@.len() - i,
    {
        let mut m = no_messages();
        match &ev[i] {
            GameEvent::LifeChanged { player, old, new_life: _ } => {
                match last_life_of(ev, i, *player) {
                    Some(prev) => {
                        if prev != *old {
                            let mut t = note("p", player.0 as u64, ": LifeChanged chain breaks (");
                            let a = signed_decimal(prev as i64);
                            t.append(a.as_str());
                            t.append(" -> event starting at ");
                            let b = signed_decimal(*old as i64);
                            t.append(b.as_str());
                            t.append(")");
                            put(&mut m, t);
                        }
                    },
                    None => {},
                }
            },
            _ => {},
        }
        assert(m@.len() == 0 <==> life_link_ok(*state, i as int));
        put_all(&mut u, m);
        i = i + 1;
    }
    put_all(&mut w, u);
    let seats: usize = if state.players.len() <= 256 { state.players.len() } else { 256 };
    let mut u = no_messages();
    let mut q: usize = 0;
    while q < seats
        invariant
            *ev == state.events,
            seats == life_seats(*state),
            seats <= state.players@.len(),
            seats <= 256,
            q <= seats,
            views(u@) == each_life_end(*state, q as nat),
            u@.len() == 0 <==> forall|x: int| 0 <= x < q ==> #[trigger] life_end_ok(*state, x),
        decreases seats - q,
    {
        let mut m = no_messages();
        match last_life_of(ev, ev.len(), PlayerId(q as u8)) {
            Some(n) => {
                if state.players[q].life != n {
                    let mut t = note("p", q as u64, ": last LifeChanged says ");
                    let a = signed_decimal(n as i64);
                    t.append(a.as_str());
                    t.append(" but life is ");
                    let b = signed_decimal(state.players[q].life as i64);
                    t.append(b.as_str());
                    put(&mut m, t);
                }
            },
            None => {},
        }
        assert(m@.len() == 0 <==> life_end_ok(*state, q as int));
        put_all(&mut u, m);
        q = q + 1;
    }
    put_all(&mut w, u);
    w
}

// ----------------------------------------------------------------------
// The pending prompt and what it stashes

/// The player a prompt asks, where it names one.
pub open spec fn prompt_player(a: AwaitingAction) -> Option<PlayerId> {
    match a {
        AwaitingAction::ResolutionChoice { player, source: _, choice: _ } => Some(player),
        AwaitingAction::MulliganDecision { player } => Some(player),
        AwaitingAction::BottomAfterMulligan { player, count: _ } => Some(player),
        AwaitingAction::DiscardToHandSize { player, discard_count: _ } => Some(player),
        _ => None,
    }
}

/// The choice offers nothing to choose from.
pub open spec fn choice_empty(k: ResolutionChoiceKind) -> bool {
    match k {
        ResolutionChoiceKind::ChooseTarget { options, .. } => options@.len() == 0,
        ResolutionChoiceKind::ChooseFromLookedAt { looked_at, .. } => looked_at@.len() == 0,
        ResolutionChoiceKind::ChooseCardFromHand { cards, .. } => cards@.len() == 0,
        ResolutionChoiceKind::ChooseTriggerOrder { options, .. } => options@.len() == 0,
        ResolutionChoiceKind::DividePermanentsIntoPiles { permanents, .. } => permanents@.len() == 0,
        _ => false,
    }
}

/// The prompt is a resolution choice with nothing to choose.
pub open spec fn prompt_empty(st: GameState) -> bool {
    st.awaiting_action matches Some(AwaitingAction::ResolutionChoice { player: _, source: _, choice })
        && choice_empty(choice)
}

/// The prompt up is the one a stashed spell cast waits on: the choice of
/// cards to exile from a graveyard.
pub open spec fn prompt_stashes_spell(st: GameState) -> bool {
    st.awaiting_action matches Some(AwaitingAction::ResolutionChoice { player: _, source: _,
        choice: ResolutionChoiceKind::ChooseExileFromGraveyard { .. } })
}

/// A pending prompt asks a player and offers something to choose, a
/// stashed spell cast waits on its prompt, and no ability effect is
/// stashed: only an X-funding prompt answers one, and no card here raises
/// that prompt.
pub open spec fn prompts_ok(st: GameState) -> bool {
    &&& (st.awaiting_action matches Some(a) ==> !bad_player(st, prompt_player(a)))
    &&& !prompt_empty(st)
    &&& (st.pending_spell_cast is Some ==> prompt_stashes_spell(st))
    &&& st.pending_ability_effect is None
}

pub open spec fn prompt_messages(st: GameState) -> Seq<Seq<char>> {
    let asked = match st.awaiting_action {
        Some(a) => when(Seq::empty(), bad_player(st, prompt_player(a)),
            "awaiting_action prompts out-of-range p"@ + spec_decimal(prompt_player(a).unwrap().0 as nat)),
        None => Seq::empty(),
    };
    when(when(when(asked,
        prompt_empty(st), "awaiting_action offers a choice with nothing to choose"@),
        st.pending_spell_cast is Some && !prompt_stashes_spell(st),
        "pending_spell_cast stashed with no funding/exile prompt up (leak)"@),
        st.pending_ability_effect is Some, "pending_ability_effect stashed with no funding prompt up (leak)"@)
}

fn prompts_check(state: &GameState) -> (w: Vec<String>)
    ensures
        views(w@) == prompt_messages(*state),
        w@.len() == 0 <==> prompts_ok(*state),
{
    let mut w = no_messages();
    let asked: Option<PlayerId> = match &state.awaiting_action {
        Some(AwaitingAction::ResolutionChoice { player, .. }) => Some(*player),
        Some(AwaitingAction::MulliganDecision { player }) => Some(*player),
        Some(AwaitingAction::BottomAfterMulligan { player, .. }) => Some(*player),
        Some(AwaitingAction::DiscardToHandSize { player, .. }) => Some(*player),
        _ => None,
    };
    match asked {
        Some(p) => {
            if p.0 as usize >= state.players.len() {
                let mut m = String::from_str("awaiting_action prompts out-of-range p");
                add_num(&mut m, p.0 as u64);
                put(&mut w, m);
            }
        },
        None => {},
    }
    let empty = match &state.awaiting_action {
        Some(AwaitingAction::ResolutionChoice { choice, .. }) => match choice {
            ResolutionChoiceKind::ChooseTarget { options, .. } => options.len() == 0,
            ResolutionChoiceKind::ChooseFromLookedAt { looked_at, .. } => looked_at.len() == 0,
            ResolutionChoiceKind::ChooseCardFromHand { cards, .. } => cards.len() == 0,
            ResolutionChoiceKind::ChooseTriggerOrder { options, .. } => options.len() == 0,
            ResolutionChoiceKind::DividePermanentsIntoPiles { permanents, .. } => permanents.len() == 0,
            _ => false,
        },
        _ => false,
    };
    if empty {
        put(&mut w, String::from_str("awaiting_action offers a choice with nothing to choose"));
    }
    let stashes_spell = match &state.awaiting_action {
        Some(AwaitingAction::ResolutionChoice { choice: ResolutionChoiceKind::ChooseExileFromGraveyard { .. }, .. }) => true,
        _ => false,
    };
    if state.pending_spell_cast.is_some() && !stashes_spell {
        put(&mut w, String::from_str("pending_spell_cast stashed with no funding/exile prompt up (leak)"));
    }
    if state.pending_ability_effect.is_some() {
        put(&mut w, String::from_str("pending_ability_effect stashed with no funding prompt up (leak)"));
    }
    w
}

// ----------------------------------------------------------------------
// The turn

/// How a boolean is written.
pub open spec fn bool_name(b: bool) -> Seq<char> {
    if b { "true"@ } else { "false"@ }
}

fn bool_str(b: bool) -> (s: &'static str)
    ensures
        s@ == bool_name(b),
{
    if b { "true" } else { "false" }
}

/// How a recorded loss reason is written.
pub open spec fn reason_name(r: Option<LossReason>) -> Seq<char> {
    match r {
        None => "None"@,
        Some(LossReason::LifeReachedZero) => "Some(LifeReachedZero)"@,
        Some(LossReason::DrewFromEmptyLibrary) => "Some(DrewFromEmptyLibrary)"@,
        Some(LossReason::Conceded) => "Some(Conceded)"@,
        Some(LossReason::CardEffect) => "Some(CardEffect)"@,
    }
}

fn reason_str(r: Option<LossReason>) -> (s: &'static str)
    ensures
        s@ == reason_name(r),
{
    match r {
        None => "None",
        Some(LossReason::LifeReachedZero) => "Some(LifeReachedZero)",
        Some(LossReason::DrewFromEmptyLibrary) => "Some(DrewFromEmptyLibrary)",
        Some(LossReason::Conceded) => "Some(Conceded)",
        Some(LossReason::CardEffect) => "Some(CardEffect)",
    }
}

/// The turn counter and its first-turn flag agree (CR 103.7a), no draw
/// step on the first turn of a two-player game, nobody holds priority in
/// the untap step (CR 502.4), and there are two players.
pub open spec fn turn_ok(st: GameState) -> bool {
    &&& st.turn_number >= 1
    &&& st.is_first_turn == (st.turn_number == 1)
    &&& !(st.turn_number == 1 && st.step == Step::Draw && st.players@.len() == 2)
    &&& !(st.step == Step::Untap && st.priority_player is Some)
    &&& st.players@.len() == 2
}

pub open spec fn turn_messages(st: GameState) -> Seq<Seq<char>> {
    when(when(when(when(when(Seq::empty(),
        st.turn_number < 1, "turn_number is 0"@),
        st.is_first_turn != (st.turn_number == 1), "is_first_turn="@ + bool_name(st.is_first_turn) + " on turn "@
            + spec_decimal(st.turn_number as nat)),
        st.turn_number == 1 && st.step == Step::Draw && st.players@.len() == 2, "a draw step on the first turn (CR 103.7a)"@),
        st.step == Step::Untap && st.priority_player is Some, "a player holds priority in the untap step (CR 502.4)"@),
        st.players@.len() != 2, spec_decimal(st.players@.len()) + " players in a two-player engine"@)
}

/// A player's loss is recorded with its reason (CR 104), and no player
/// has more than one land play left (CR 305.2).
pub open spec fn player_record_ok(st: GameState, i: int) -> bool {
    let p = st.players@[i];
    p.lost == (p.loss_reason is Some) && p.land_plays_remaining <= 1
}

pub open spec fn player_record_messages(st: GameState, i: int) -> Seq<Seq<char>> {
    let p = st.players@[i];
    when(when(Seq::empty(),
        p.lost != (p.loss_reason is Some), "p"@ + spec_decimal(p.id.0 as nat) + ": lost="@ + bool_name(p.lost)
            + " but loss_reason="@ + reason_name(p.loss_reason)),
        p.land_plays_remaining > 1, "p"@ + spec_decimal(p.id.0 as nat) + " has "@ + spec_decimal(p.land_plays_remaining as nat)
            + " land plays remaining"@)
}

pub open spec fn each_player_record(st: GameState, n: nat) -> Seq<Seq<char>>
    decreases n,
{
    if n == 0 {
        Seq::empty()
    } else {
        each_player_record(st, (n - 1) as nat) + player_record_messages(st, n - 1)
    }
}

/// The attacked player at `a` is a player.
pub open spec fn defender_ok(c: CombatState, st: GameState, a: int) -> bool {
    is_player(st, c.attackers@[a].1)
}

pub open spec fn each_defender(c: CombatState, st: GameState, n: nat) -> Seq<Seq<char>>
    decreases n,
{
    if n == 0 {
        Seq::empty()
    } else {
        when(each_defender(c, st, (n - 1) as nat), !defender_ok(c, st, n - 1),
            "attacker #"@ + spec_decimal(c.attackers@[n - 1].0.0 as nat) + " attacks p"@
                + spec_decimal(c.attackers@[n - 1].1.0 as nat) + " who is not a player"@)
    }
}

/// The effect at `i` gives control to, takes it from, and comes from
/// players.
pub open spec fn control_parties_ok(st: GameState, i: int) -> bool {
    let e = st.control_effects@[i];
    is_player(st, e.controller) && is_player(st, e.original_controller) && is_player(st, e.source_controller)
}

pub open spec fn each_control_party(st: GameState, n: nat) -> Seq<Seq<char>>
    decreases n,
{
    if n == 0 {
        Seq::empty()
    } else {
        let e = st.control_effects@[n - 1];
        let r = "control effect over #"@ + spec_decimal(e.object.0 as nat) + " names p"@;
        when(when(when(each_control_party(st, (n - 1) as nat),
            !is_player(st, e.controller), r + spec_decimal(e.controller.0 as nat) + " who is not a player"@),
            !is_player(st, e.original_controller), r + spec_decimal(e.original_controller.0 as nat) + " who is not a player"@),
            !is_player(st, e.source_controller), r + spec_decimal(e.source_controller.0 as nat) + " who is not a player"@)
    }
}

/// One message for each of the first `n` entries keyed by a player that is
/// not a player, with `what` saying what the entry is.
pub open spec fn each_keyed_player<V>(st: GameState, keyed: Seq<(PlayerId, V)>, what: Seq<char>, n: nat) -> Seq<Seq<char>>
    decreases n,
{
    if n == 0 {
        Seq::empty()
    } else {
        when(each_keyed_player(st, keyed, what, (n - 1) as nat), !is_player(st, keyed[n - 1].0),
            what + spec_decimal(keyed[n - 1].0.0 as nat) + " who is not a player"@)
    }
}

/// Every entry is keyed by a player.
pub open spec fn keyed_by_players<V>(st: GameState, keyed: Seq<(PlayerId, V)>) -> bool {
    forall|i: int| 0 <= i < keyed.len() ==> is_player(st, #[trigger] keyed[i].0)
}

/// The players the turn's bookkeeping names are players: those attacked,
/// those a control effect names, those with bottoming queued or spells
/// counted, and the one asked to declare blockers.
pub open spec fn turn_players_ok(st: GameState) -> bool {
    &&& (st.combat matches Some(c) ==> forall|a: int| 0 <= a < c.attackers@.len() ==> #[trigger] defender_ok(c, st, a))
    &&& forall|i: int| 0 <= i < st.control_effects@.len() ==> #[trigger] control_parties_ok(st, i)
    &&& keyed_by_players(st, st.book.pending_mulligan_bottoms@)
    &&& keyed_by_players(st, st.book.num_spells_cast_this_turn@)
    &&& keyed_by_players(st, st.book.num_spells_cast_last_turn@)
    &&& (st.awaiting_action matches Some(AwaitingAction::DeclareBlockers { defending_player }) ==> is_player(st, defending_player))
}

pub open spec fn turn_players_messages(st: GameState) -> Seq<Seq<char>> {
    let attacks = match st.combat {
        Some(c) => each_defender(c, st, c.attackers@.len()),
        None => Seq::empty(),
    };
    let named = attacks + each_control_party(st, st.control_effects@.len())
        + each_keyed_player(st, st.book.pending_mulligan_bottoms@, "queued bottoming for p"@,
            st.book.pending_mulligan_bottoms@.len())
        + each_keyed_player(st, st.book.num_spells_cast_this_turn@, "spell count for p"@,
            st.book.num_spells_cast_this_turn@.len())
        + each_keyed_player(st, st.book.num_spells_cast_last_turn@, "spell count for p"@,
            st.book.num_spells_cast_last_turn@.len());
    match st.awaiting_action {
        Some(AwaitingAction::DeclareBlockers { defending_player }) => when(named, !is_player(st, defending_player),
            "blockers prompt for p"@ + spec_decimal(defending_player.0 as nat) + " who is not a player"@),
        _ => named,
    }
}

fn keyed_player_check<V>(state: &GameState, keyed: &Vec<(PlayerId, V)>, what: &str) -> (w: Vec<String>)
    ensures
        views(w@) == each_keyed_player(*state, keyed@, what@, keyed@.len()),
        w@.len() == 0 <==> keyed_by_players(*state, keyed@),
{
    let mut w = no_messages();
    let mut i: usize = 0;
    while i < keyed.len()
        invariant
            i <= keyed@.len(),
            views(w@) == each_keyed_player(*state, keyed@, what@, i as nat),
            w@.len() == 0 <==> forall|x: int| 0 <= x < i ==> is_player(*state, #[trigger] keyed@[x].0),
        decreases keyed@.len() - i,
    {
        let p = keyed[i].0;
        let ghost before = w@;
        if p.0 as usize >= state.players.len() {
            let mut m = String::from_str(what);
            add_num(&mut m, p.0 as u64);
            m.append(" who is not a player");
            put(&mut w, m);
        }
        assert(w@.len() == before.len() <==> is_player(*state, keyed@[i as int].0));
        assert(w@.len() >= before.len());
        i = i + 1;
    }
    w
}

fn control_parties_check(state: &GameState) -> (w: Vec<String>)
    ensures
        views(w@) == each_control_party(*state, state.control_effects@.len()),
        w@.len() == 0 <==> forall|i: int| 0 <= i < state.control_effects@.len() ==> #[trigger] control_parties_ok(*state, i),
{
    let mut w = no_messages();
    let mut i: usize = 0;
    while i < state.control_effects.len()
        invariant
            i <= state.control_effects@.len(),
            views(w@) == each_control_party(*state, i as nat),
            w@.len() == 0 <==> forall|x: int| 0 <= x < i ==> #[trigger] control_parties_ok(*state, x),
        decreases state.control_effects@.len() - i,
    {
        let e = &state.control_effects[i];
        let ghost before = w@;
        let n = state.players.len();
        if e.controller.0 as usize >= n {
            let mut m = note("control effect over #", e.object.0, " names p");
            add_num(&mut m, e.controller.0 as u64);
            m.append(" who is not a player");
            put(&mut w, m);
        }
        if e.original_controller.0 as usize >= n {
            let mut m = note("control effect over #", e.object.0, " names p");
            add_num(&mut m, e.original_controller.0 as u64);
            m.append(" who is not a player");
            put(&mut w, m);
        }
        if e.source_controller.0 as usize >= n {
            let mut m = note("control effect over #", e.object.0, " names p");
            add_num(&mut m, e.source_controller.0 as u64);
            m.append(" who is not a player");
            put(&mut w, m);
        }
        assert(w@.len() == before.len() <==> control_parties_ok(*state, i as int));
        assert(w@.len() >= before.len());
        i = i + 1;
    }
    w
}

fn turn_check(state: &GameState) -> (w: Vec<String>)
    ensures
        views(w@) == turn_messages(*state) + each_player_record(*state, state.players@.len()) + turn_players_messages(*state),
        w@.len() == 0 <==> turn_ok(*state) && (forall|i: int| 0 <= i < state.players@.len() ==> #[trigger] player_record_ok(*state, i))
            && turn_players_ok(*state),
{
    let mut w = no_messages();
    if state.turn_number < 1 {
        put(&mut w, String::from_str("turn_number is 0"));
    }
    if state.is_first_turn != (state.turn_number == 1) {
        let mut m = String::from_str("is_first_turn=");
        m.append(bool_str(state.is_first_turn));
        m.append(" on turn ");
        add_num(&mut m, state.turn_number as u64);
        put(&mut w, m);
    }
    if state.turn_number == 1 && state.step == Step::Draw && state.players.len() == 2 {
        put(&mut w, String::from_str("a draw step on the first turn (CR 103.7a)"));
    }
    if state.step == Step::Untap && state.priority_player.is_some() {
        put(&mut w, String::from_str("a player holds priority in the untap step (CR 502.4)"));
    }
    if state.players.len() != 2 {
        let mut m = decimal(state.players.len() as u64);
        m.append(" players in a two-player engine");
        put(&mut w, m);
    }
    let mut u = no_messages();
    let mut i: usize = 0;
    while i < state.players.len()
        invariant
            i <= state.players@.len(),
            views(u@) == each_player_record(*state, i as nat),
            u@.len() == 0 <==> forall|x: int| 0 <= x < i ==> #[trigger] player_record_ok(*state, x),
        decreases state.players@.len() - i,
    {
        let p = &state.players[i];
        let mut m = no_messages();
        if p.lost != p.loss_reason.is_some() {
            let mut t = note("p", p.id.0 as u64, ": lost=");
            t.append(bool_str(p.lost));
            t.append(" but loss_reason=");
            t.append(reason_str(p.loss_reason));
            put(&mut m, t);
        }
        if p.land_plays_remaining > 1 {
            let mut t = note("p", p.id.0 as u64, " has ");
            add_num(&mut t, p.land_plays_remaining as u64);
            t.append(" land plays remaining");
            put(&mut m, t);
        }
        assert(m@.len() == 0 <==> player_record_ok(*state, i as int));
        put_all(&mut u, m);
        i = i + 1;
    }
    put_all(&mut w, u);
    let mut u = no_messages();
    match &state.combat {
        Some(c) => {
            let mut a: usize = 0;
            while a < c.attackers.len()
                invariant
                    state.combat == Some(*c),
                    a <= c.attackers@.len(),
                    views(u@) == each_defender(*c, *state, a as nat),
                    u@.len() == 0 <==> forall|x: int| 0 <= x < a ==> #[trigger] defender_ok(*c, *state, x),
                decreases c.attackers@.len() - a,
            {
                let d = c.attackers[a].1;
                let ghost before = u@;
                if d.0 as usize >= state.players.len() {
                    let mut t = note("attacker #", c.attackers[a].0.0, " attacks p");
                    add_num(&mut t, d.0 as u64);
                    t.append(" who is not a player");
                    put(&mut u, t);
                }
                assert(u@.len() == before.len() <==> defender_ok(*c, *state, a as int));
                assert(u@.len() >= before.len());
                a = a + 1;
            }
        },
        None => {},
    }
    put_all(&mut u, control_parties_check(state));
    put_all(&mut u, keyed_player_check(state, &state.book.pending_mulligan_bottoms, "queued bottoming for p"));
    put_all(&mut u, keyed_player_check(state, &state.book.num_spells_cast_this_turn, "spell count for p"));
    put_all(&mut u, keyed_player_check(state, &state.book.num_spells_cast_last_turn, "spell count for p"));
    match &state.awaiting_action {
        Some(AwaitingAction::DeclareBlockers { defending_player }) => {
            if defending_player.0 as usize >= state.players.len() {
                put(&mut u, note("blockers prompt for p", defending_player.0 as u64, " who is not a player"));
            }
        },
        _ => {},
    }
    put_all(&mut w, u);
    w
}

// ----------------------------------------------------------------------
// Every decision point

/// The invariants of every decision point: objects stored in id order
/// below the allocator, players indexed by their ids, turn and priority
/// held by players, libraries that match their order (CR 401.2), nothing
/// attached to an object and a player at once (CR 303.4), every spell
/// entry and every object in the stack zone accounted for, the trigger
/// pass within the events, no attack on a future turn, no use of the
/// command zone, no attachment cycle, combat records that name declared
/// attackers and one block per creature (CR 509.1b), the current action's
/// events coherent, a pending prompt that can be answered with no stash
/// left behind, player ids on objects that name players, and the turn's
/// own records coherent.
pub open spec fn core_ok(st: GameState, reg: CardRegistry) -> bool {
    &&& all_objects_ok(st, reg, ObjectCheck::Ids)
    &&& all_players_ok(st, PlayerCheck::Ids)
    &&& turn_holders_ok(st)
    &&& forall|p: int| 0 <= p < st.players@.len() ==> #[trigger] library_ok(st, p)
    &&& all_objects_ok(st, reg, ObjectCheck::AttachedBoth)
    &&& forall|s: int| 0 <= s < st.stack@.len() ==> #[trigger] stack_entry_ok(st, s)
    &&& all_objects_ok(st, reg, ObjectCheck::StackZone)
    &&& st.book.trigger_event_index <= st.events@.len()
    &&& all_objects_ok(st, reg, ObjectCheck::FutureAttack)
    &&& all_objects_ok(st, reg, ObjectCheck::CommandZone)
    &&& all_objects_ok(st, reg, ObjectCheck::Cycle)
    &&& combat_core_ok(st)
    &&& events_core_ok(st)
    &&& prompts_ok(st)
    &&& all_objects_ok(st, reg, ObjectCheck::Records)
    &&& turn_ok(st)
    &&& forall|i: int| 0 <= i < st.players@.len() ==> #[trigger] player_record_ok(st, i)
    &&& turn_players_ok(st)
}

/// The messages of every decision point, in the order they are checked.
pub open spec fn core_messages(st: GameState, reg: CardRegistry) -> Seq<Seq<char>> {
    objects_messages(st, reg, ObjectCheck::Ids)
        + players_messages(st, PlayerCheck::Ids)
        + turn_holder_messages(st)
        + each_library(st, st.players@.len())
        + objects_messages(st, reg, ObjectCheck::AttachedBoth)
        + each_stack_entry(st, st.stack@.len())
        + objects_messages(st, reg, ObjectCheck::StackZone)
        + event_index_messages(st)
        + objects_messages(st, reg, ObjectCheck::FutureAttack)
        + objects_messages(st, reg, ObjectCheck::CommandZone)
        + objects_messages(st, reg, ObjectCheck::Cycle)
        + combat_messages(st)
        + events_messages(st)
        + prompt_messages(st)
        + objects_messages(st, reg, ObjectCheck::Records)
        + (turn_messages(st) + each_player_record(st, st.players@.len()) + turn_players_messages(st))
}

/// The invariants that hold at every decision point, even in the middle of
/// a resolution: one message per violation, in the order of
/// `core_messages`, none when the state is coherent.
#[verifier::rlimit(40)]
pub fn check_core(state: &GameState, registry: &CardRegistry) -> (v: Vec<String>)
    ensures
        views(v@) == core_messages(*state, *registry),
        v@.len() == 0 <==> core_ok(*state, *registry),
{
    let mut v = objects_check(state, registry, ObjectCheck::Ids);
    put_all(&mut v, players_check(state, PlayerCheck::Ids));
    put_all(&mut v, turn_holders_check(state));
    put_all(&mut v, libraries_check(state));
    put_all(&mut v, objects_check(state, registry, ObjectCheck::AttachedBoth));
    put_all(&mut v, stack_entries_check(state));
    put_all(&mut v, objects_check(state, registry, ObjectCheck::StackZone));
    put_all(&mut v, event_index_check(state));
    put_all(&mut v, objects_check(state, registry, ObjectCheck::FutureAttack));
    put_all(&mut v, objects_check(state, registry, ObjectCheck::CommandZone));
    put_all(&mut v, objects_check(state, registry, ObjectCheck::Cycle));
    put_all(&mut v, combat_check(state));
    put_all(&mut v, events_check(state));
    put_all(&mut v, prompts_check(state));
    put_all(&mut v, objects_check(state, registry, ObjectCheck::Records));
    put_all(&mut v, turn_check(state));
    v
}

// ----------------------------------------------------------------------
// Once the state-based actions have run

/// Combat bookkeeping exists only in the steps that use it.
pub open spec fn combat_step_ok(st: GameState) -> bool {
    st.combat is Some ==> (st.step == Step::DeclareAttackers || st.step == Step::DeclareBlockers
        || st.step == Step::CombatDamage)
}

pub open spec fn combat_step_messages(st: GameState) -> Seq<Seq<char>> {
    when(Seq::empty(), !combat_step_ok(st), "combat state present in step "@ + step_name(st.step))
}

/// The invariants of a state on which the state-based actions have just
/// run to a fixed point (CR 704.3), besides those of every decision point:
/// tokens only on the battlefield (CR 704.5d), no battlefield markings
/// elsewhere (CR 400.7), loss conditions applied (CR 704.5a, 704.5b),
/// creatures that should be dead gone (CR 704.5f, 704.5g), combat state
/// only in combat, attackers and blockers under the right players (CR
/// 508.1a, 506.4d), every collected trigger put on the stack before a
/// player holds priority (CR 603.3b), a power and a toughness for every
/// creature on the battlefield, loyalty only on planeswalkers,
/// creatures with deathtouch damage gone (CR 704.5h), planeswalkers with
/// no loyalty gone (CR 704.5i), no permanent with both +1/+1 and -1/-1
/// counters (CR 704.5q), the outcome and the combat records settled, and
/// every attacker with blockers marked blocked (CR 509.1h).
pub open spec fn settled_ok(st: GameState, reg: CardRegistry) -> bool {
    &&& all_objects_ok(st, reg, ObjectCheck::Token)
    &&& all_objects_ok(st, reg, ObjectCheck::Markings)
    &&& all_players_ok(st, PlayerCheck::Loss)
    &&& st.seated() ==> all_objects_ok(st, reg, ObjectCheck::Creature)
    &&& combat_step_ok(st)
    &&& combat_control_ok(st)
    &&& triggers_placed(st)
    &&& st.seated() ==> all_objects_ok(st, reg, ObjectCheck::HasPowerToughness)
    &&& all_objects_ok(st, reg, ObjectCheck::LoyaltyOnlyPlaneswalkers)
    &&& st.seated() ==> all_objects_ok(st, reg, ObjectCheck::Deathtouch)
    &&& all_objects_ok(st, reg, ObjectCheck::ZeroLoyalty)
    &&& all_objects_ok(st, reg, ObjectCheck::BothCounters)
    &&& outcome_ok(st)
    &&& combat_turn_ok(st)
    &&& blocked_marked_ok(st)
}

/// How many collected triggers still wait to go on the stack.
pub open spec fn triggers_waiting(st: GameState) -> nat {
    st.pending_triggers@.len() + st.book.pending_trigger_pushes_ap@.len() + st.book.pending_trigger_pushes_nap@.len()
}

/// No collected trigger waits while a player holds priority and nothing is
/// being asked.
pub open spec fn triggers_placed(st: GameState) -> bool {
    st.awaiting_action is None && st.priority_player is Some ==> triggers_waiting(st) == 0
}

pub open spec fn triggers_placed_messages(st: GameState) -> Seq<Seq<char>> {
    when(Seq::empty(), !triggers_placed(st),
        spec_decimal(triggers_waiting(st)) + " collected trigger(s) still queued while a player holds priority"@)
}

/// The messages of the settled checks, in the order they are made.
pub open spec fn settled_messages(st: GameState, reg: CardRegistry) -> Seq<Seq<char>> {
    objects_messages(st, reg, ObjectCheck::Token)
        + objects_messages(st, reg, ObjectCheck::Markings)
        + players_messages(st, PlayerCheck::Loss)
        + (if st.seated() { objects_messages(st, reg, ObjectCheck::Creature) } else { Seq::empty() })
        + combat_step_messages(st)
        + combat_control_messages(st)
        + triggers_placed_messages(st)
        + (if st.seated() { objects_messages(st, reg, ObjectCheck::HasPowerToughness) } else { Seq::empty() })
        + objects_messages(st, reg, ObjectCheck::LoyaltyOnlyPlaneswalkers)
        + (if st.seated() { objects_messages(st, reg, ObjectCheck::Deathtouch) } else { Seq::empty() })
        + objects_messages(st, reg, ObjectCheck::ZeroLoyalty)
        + objects_messages(st, reg, ObjectCheck::BothCounters)
        + outcome_messages(st)
        + combat_turn_messages(st)
        + blocked_marked_messages(st)
}

/// Some player has lost.
pub open spec fn someone_lost(st: GameState) -> bool {
    exists|i: int| 0 <= i < st.players@.len() && st.players@[i].lost
}

/// Some player has not lost.
pub open spec fn someone_standing(st: GameState) -> bool {
    exists|i: int| 0 <= i < st.players@.len() && !st.players@[i].lost
}

/// Some player other than `w` has not lost.
pub open spec fn another_standing(st: GameState, w: PlayerId) -> bool {
    exists|i: int| 0 <= i < st.players@.len() && st.players@[i].id != w && !st.players@[i].lost
}

/// The winner the result names, if it names one.
pub open spec fn winner_of(st: GameState) -> Option<PlayerId> {
    match st.result {
        Some(GameResult::Winner(w)) => Some(w),
        _ => None,
    }
}

/// The player a pending prompt waits on.
pub open spec fn prompted_player(st: GameState) -> Option<PlayerId> {
    match st.awaiting_action {
        Some(AwaitingAction::DeclareBlockers { defending_player }) => Some(defending_player),
        Some(AwaitingAction::DeclareAttackers) => Some(st.active_player),
        Some(a) => prompt_player(a),
        None => None,
    }
}

/// The optional player is a player who has lost.
pub open spec fn has_lost(st: GameState, p: Option<PlayerId>) -> bool {
    p matches Some(q) && is_player(st, q) && st.players@[q.0 as int].lost
}

/// The combat has had its attackers declared.
pub open spec fn attackers_were_declared(st: GameState) -> bool {
    st.combat matches Some(c) && c.any_attackers_declared
}

/// The messages of `outcome_ok`, in the order they are checked.
pub open spec fn outcome_messages(st: GameState) -> Seq<Seq<char>> {
    let w = winner_of(st).unwrap();
    when(when(when(when(when(when(when(Seq::empty(),
        st.consecutive_passes >= st.players@.len(), spec_decimal(st.consecutive_passes as nat) + " consecutive passes with "@
            + spec_decimal(st.players@.len()) + " players and nothing resolved or advanced (CR 117.4)"@),
        someone_lost(st) && st.result is None, "a player has lost but the game has no result (CR 104.2a)"@),
        winner_of(st) is Some && !is_player(st, w), "winner p"@ + spec_decimal(w.0 as nat) + " is not a player"@),
        winner_of(st) is Some && is_player(st, w) && (st.players@[w.0 as int].lost || another_standing(st, w)),
            "p"@ + spec_decimal(w.0 as nat) + " is the winner but the loss flags say otherwise"@),
        st.result == Some(GameResult::Draw) && someone_standing(st), "a draw with a player who has not lost (CR 104.4a)"@),
        has_lost(st, st.priority_player), "p"@ + spec_decimal(st.priority_player.unwrap().0 as nat) + " holds priority after losing"@),
        has_lost(st, prompted_player(st)), "p"@ + spec_decimal(prompted_player(st).unwrap().0 as nat) + " is prompted after losing"@)
}

/// The messages of `combat_turn_ok`, in the order they are checked.
pub open spec fn combat_turn_messages(st: GameState) -> Seq<Seq<char>> {
    let c = st.combat.unwrap();
    when(when(when(when(when(Seq::empty(),
        st.combat_damage_step_pending && (st.step != Step::CombatDamage || st.combat is None),
            "second combat damage step pending in "@ + step_name(st.step) + " (CR 510.4)"@),
        (st.step == Step::DeclareBlockers || st.step == Step::CombatDamage) && !attackers_were_declared(st),
            step_name(st.step) + " reached without attackers declared (CR 508.8)"@),
        st.step == Step::DeclareAttackers && st.combat is None && !(st.awaiting_action matches Some(AwaitingAction::DeclareAttackers)),
            "declare attackers step past its declaration with no combat state"@),
        st.combat is Some && c.dealt_first_strike@.len() != 0 && st.step != Step::CombatDamage,
            "first-strike damage recorded in "@ + step_name(st.step)),
        st.combat is Some && c.attackers@.len() != 0 && !c.any_attackers_declared, "attackers in combat but none declared"@)
}

/// A round of passes has been acted on (CR 117.4), a loss ends the game
/// with a result that matches the losses (CR 104.2a, 104.4a), and nobody
/// who has lost holds priority or is asked anything (CR 104.3a).
pub open spec fn outcome_ok(st: GameState) -> bool {
    &&& st.consecutive_passes < st.players@.len()
    &&& (someone_lost(st) ==> st.result is Some)
    &&& (winner_of(st) matches Some(w) ==> is_player(st, w) && !st.players@[w.0 as int].lost && !another_standing(st, w))
    &&& (st.result == Some(GameResult::Draw) ==> !someone_standing(st))
    &&& !has_lost(st, st.priority_player)
    &&& !has_lost(st, prompted_player(st))
}

/// Combat state fits the step: a second damage step only in the damage
/// step (CR 510.4), blockers and damage only after attackers were declared
/// (CR 508.8), first-strike damage only in the damage step, and attackers
/// in combat only once declared.
pub open spec fn combat_turn_ok(st: GameState) -> bool {
    &&& (st.combat_damage_step_pending ==> st.step == Step::CombatDamage && st.combat is Some)
    &&& (st.step == Step::DeclareBlockers || st.step == Step::CombatDamage ==> attackers_were_declared(st))
    &&& (st.step == Step::DeclareAttackers && st.combat is None
        ==> st.awaiting_action matches Some(AwaitingAction::DeclareAttackers))
    &&& (st.combat matches Some(c) ==> (c.dealt_first_strike@.len() != 0 ==> st.step == Step::CombatDamage)
        && (c.attackers@.len() != 0 ==> c.any_attackers_declared))
}

proof fn lemma_outcome_empty(st: GameState)
    ensures
        outcome_messages(st).len() == 0 <==> outcome_ok(st),
{
}

proof fn lemma_combat_turn_empty(st: GameState)
    ensures
        combat_turn_messages(st).len() == 0 <==> combat_turn_ok(st),
{
}

fn someone_lost_exec(state: &GameState, standing: bool, other_than: Option<PlayerId>) -> (b: bool)
    ensures
        b == (exists|i: int| 0 <= i < state.players@.len() && state.players@[i].lost != standing
            && (other_than matches Some(w) ==> state.players@[i].id != w)),
{
    let mut i: usize = 0;
    while i < state.players.len()
        invariant
            i <= state.players@.len(),
            forall|x: int| 0 <= x < i ==> !(state.players@[x].lost != standing
                && (other_than matches Some(w) ==> state.players@[x].id != w)),
        decreases state.players@.len() - i,
    {
        let p = &state.players[i];
        let other = match other_than {
            Some(w) => p.id != w,
            None => true,
        };
        if p.lost != standing && other {
            assert(state.players@[i as int].lost != standing);
            return true;
        }
        i = i + 1;
    }
    false
}

fn has_lost_exec(state: &GameState, p: Option<PlayerId>) -> (b: bool)
    ensures
        b == has_lost(*state, p),
{
    match p {
        Some(q) => (q.0 as usize) < state.players.len() && state.players[q.0 as usize].lost,
        None => false,
    }
}

fn outcome_check(state: &GameState) -> (w: Vec<String>)
    ensures
        views(w@) == outcome_messages(*state),
        w@.len() == 0 <==> outcome_ok(*state),
{
    let mut w = no_messages();
    if state.consecutive_passes as usize >= state.players.len() {
        let mut m = note("", state.consecutive_passes as u64, " consecutive passes with ");
        add_num(&mut m, state.players.len() as u64);
        m.append(" players and nothing resolved or advanced (CR 117.4)");
        proof { reveal_strlit(""); assert(m@ =~= spec_decimal(state.consecutive_passes as nat) + " consecutive passes with "@
            + spec_decimal(state.players@.len()) + " players and nothing resolved or advanced (CR 117.4)"@); }
        put(&mut w, m);
    }
    if state.result.is_none() && someone_lost_exec(state, false, None) {
        put(&mut w, String::from_str("a player has lost but the game has no result (CR 104.2a)"));
    }
    match state.result {
        Some(GameResult::Winner(win)) => {
            if win.0 as usize >= state.players.len() {
                put(&mut w, note("winner p", win.0 as u64, " is not a player"));
            } else if state.players[win.0 as usize].lost || someone_lost_exec(state, true, Some(win)) {
                put(&mut w, note("p", win.0 as u64, " is the winner but the loss flags say otherwise"));
            }
        },
        Some(GameResult::Draw) => {
            if someone_lost_exec(state, true, None) {
                put(&mut w, String::from_str("a draw with a player who has not lost (CR 104.4a)"));
            }
        },
        None => {},
    }
    if has_lost_exec(state, state.priority_player) {
        put(&mut w, note("p", state.priority_player.unwrap().0 as u64, " holds priority after losing"));
    }
    let prompted: Option<PlayerId> = match &state.awaiting_action {
        Some(AwaitingAction::DeclareBlockers { defending_player }) => Some(*defending_player),
        Some(AwaitingAction::DeclareAttackers) => Some(state.active_player),
        Some(AwaitingAction::ResolutionChoice { player, .. }) => Some(*player),
        Some(AwaitingAction::MulliganDecision { player }) => Some(*player),
        Some(AwaitingAction::BottomAfterMulligan { player, .. }) => Some(*player),
        Some(AwaitingAction::DiscardToHandSize { player, .. }) => Some(*player),
        None => None,
    };
    if has_lost_exec(state, prompted) {
        put(&mut w, note("p", prompted.unwrap().0 as u64, " is prompted after losing"));
    }
    proof {
        lemma_outcome_empty(*state);
        assert(views(w@).len() == w@.len());
    }
    w
}

fn combat_turn_check(state: &GameState) -> (w: Vec<String>)
    ensures
        views(w@) == combat_turn_messages(*state),
        w@.len() == 0 <==> combat_turn_ok(*state),
{
    let mut w = no_messages();
    if state.combat_damage_step_pending && (state.step != Step::CombatDamage || state.combat.is_none()) {
        let mut m = String::from_str("second combat damage step pending in ");
        m.append(step_str(state.step));
        m.append(" (CR 510.4)");
        put(&mut w, m);
    }
    let declared = match &state.combat {
        Some(c) => c.any_attackers_declared,
        None => false,
    };
    if (state.step == Step::DeclareBlockers || state.step == Step::CombatDamage) && !declared {
        let mut m = String::from_str(step_str(state.step));
        m.append(" reached without attackers declared (CR 508.8)");
        put(&mut w, m);
    }
    let asking_attackers = match &state.awaiting_action {
        Some(AwaitingAction::DeclareAttackers) => true,
        _ => false,
    };
    if state.step == Step::DeclareAttackers && state.combat.is_none() && !asking_attackers {
        put(&mut w, String::from_str("declare attackers step past its declaration with no combat state"));
    }
    match &state.combat {
        Some(c) => {
            if c.dealt_first_strike.len() != 0 && state.step != Step::CombatDamage {
                let mut m = String::from_str("first-strike damage recorded in ");
                m.append(step_str(state.step));
                put(&mut w, m);
            }
            if c.attackers.len() != 0 && !c.any_attackers_declared {
                put(&mut w, String::from_str("attackers in combat but none declared"));
            }
        },
        None => {},
    }
    proof {
        lemma_combat_turn_empty(*state);
        assert(views(w@).len() == w@.len());
    }
    w
}

/// The attack at `i` with blockers is marked blocked (CR 509.1h).
pub open spec fn marked_blocked(c: CombatState, i: int) -> bool {
    c.blocker_assignments@[i].1@.len() != 0 ==> c.blocked_attackers@.contains(c.blocker_assignments@[i].0)
}

pub open spec fn each_marked(c: CombatState, n: nat) -> Seq<Seq<char>>
    decreases n,
{
    if n == 0 {
        Seq::empty()
    } else {
        when(each_marked(c, (n - 1) as nat), !marked_blocked(c, n - 1),
            "attacker #"@ + spec_decimal(c.blocker_assignments@[n - 1].0.0 as nat)
                + " has blockers but is not marked blocked (CR 509.1h)"@)
    }
}

/// Every attacker with blockers is marked blocked.
pub open spec fn blocked_marked_ok(st: GameState) -> bool {
    st.combat matches Some(c) ==> forall|i: int| 0 <= i < c.blocker_assignments@.len() ==> #[trigger] marked_blocked(c, i)
}

pub open spec fn blocked_marked_messages(st: GameState) -> Seq<Seq<char>> {
    match st.combat {
        Some(c) => each_marked(c, c.blocker_assignments@.len()),
        None => Seq::empty(),
    }
}

fn blocked_marked_check(state: &GameState) -> (w: Vec<String>)
    ensures
        views(w@) == blocked_marked_messages(*state),
        w@.len() == 0 <==> blocked_marked_ok(*state),
{
    let mut w = no_messages();
    match &state.combat {
        Some(c) => {
            let mut i: usize = 0;
            while i < c.blocker_assignments.len()
                invariant
                    state.combat == Some(*c),
                    i <= c.blocker_assignments@.len(),
                    views(w@) == each_marked(*c, i as nat),
                    w@.len() == 0 <==> forall|x: int| 0 <= x < i ==> #[trigger] marked_blocked(*c, x),
                decreases c.blocker_assignments@.len() - i,
            {
                let a = c.blocker_assignments[i].0;
                let ghost before = w@;
                if c.blocker_assignments[i].1.len() != 0 && !crate::util::contains_id(&c.blocked_attackers, a) {
                    put(&mut w, note("attacker #", a.0, " has blockers but is not marked blocked (CR 509.1h)"));
                }
                assert(w@.len() == before.len() <==> marked_blocked(*c, i as int));
                assert(w@.len() >= before.len());
                i = i + 1;
            }
        },
        None => {},
    }
    w
}

/// The position of the first assignment from `k` on that names `id`.
pub open spec fn first_assignment(asg: Seq<(ObjectId, Vec<ObjectId>)>, id: ObjectId, k: int) -> Option<int>
    decreases asg.len() - k,
{
    if k < 0 || k >= asg.len() {
        None
    } else if asg[k].0 == id {
        Some(k)
    } else {
        first_assignment(asg, id, k + 1)
    }
}

/// The blockers recorded against the attacker: those of the first
/// assignment that names it.
pub open spec fn blockers_of(c: CombatState, id: ObjectId) -> Seq<ObjectId> {
    match first_assignment(c.blocker_assignments@, id, 0) {
        Some(k) => c.blocker_assignments@[k].1@,
        None => Seq::empty(),
    }
}

/// The blocker is on the battlefield under someone other than the
/// defending player.
pub open spec fn blocker_astray(st: GameState, b: ObjectId, d: PlayerId) -> bool {
    st.spec_obj(b) matches Some(o) && o.zone == Zone::Battlefield && o.controller != d
}

pub open spec fn each_blocker_control(st: GameState, bl: Seq<ObjectId>, d: PlayerId, n: nat) -> Seq<Seq<char>>
    decreases n,
{
    if n == 0 {
        Seq::empty()
    } else {
        let o = st.spec_obj(bl[n - 1]).unwrap();
        when(each_blocker_control(st, bl, d, (n - 1) as nat), blocker_astray(st, bl[n - 1], d),
            "blocker "@ + obj_ref(o) + " is controlled by p"@ + spec_decimal(o.controller.0 as nat)
                + ", not the defending player p"@ + spec_decimal(d.0 as nat))
    }
}

/// The attacker is on the battlefield under someone other than the active
/// player.
pub open spec fn attacker_astray(st: GameState, id: ObjectId) -> bool {
    st.spec_obj(id) matches Some(o) && o.zone == Zone::Battlefield && o.controller != st.active_player
}

/// An attacker still on the battlefield is controlled by the active
/// player, and its live blockers by the player it attacks (CR 508.1a,
/// 506.4d).
pub open spec fn attack_control_ok(st: GameState, c: CombatState, a: int) -> bool {
    let (id, d) = c.attackers@[a];
    &&& !attacker_astray(st, id)
    &&& forall|j: int| 0 <= j < blockers_of(c, id).len() ==> !#[trigger] blocker_astray(st, blockers_of(c, id)[j], d)
}

pub open spec fn attack_control_messages(st: GameState, c: CombatState, a: int) -> Seq<Seq<char>> {
    let (id, d) = c.attackers@[a];
    let o = st.spec_obj(id).unwrap();
    when(Seq::empty(), attacker_astray(st, id), "attacker "@ + obj_ref(o) + " is controlled by p"@
        + spec_decimal(o.controller.0 as nat) + ", not the active player"@)
        + each_blocker_control(st, blockers_of(c, id), d, blockers_of(c, id).len())
}

pub open spec fn each_attack_control(st: GameState, c: CombatState, n: nat) -> Seq<Seq<char>>
    decreases n,
{
    if n == 0 {
        Seq::empty()
    } else {
        each_attack_control(st, c, (n - 1) as nat) + attack_control_messages(st, c, n - 1)
    }
}

pub open spec fn combat_control_ok(st: GameState) -> bool {
    st.combat matches Some(c) ==> forall|a: int| 0 <= a < c.attackers@.len() ==> #[trigger] attack_control_ok(st, c, a)
}

pub open spec fn combat_control_messages(st: GameState) -> Seq<Seq<char>> {
    match st.combat {
        Some(c) => each_attack_control(st, c, c.attackers@.len()),
        None => Seq::empty(),
    }
}

fn first_assignment_of(c: &CombatState, id: ObjectId) -> (r: Option<usize>)
    ensures
        match r {
            Some(k) => first_assignment(c.blocker_assignments@, id, 0) == Some(k as int) && k < c.blocker_assignments@.len(),
            None => first_assignment(c.blocker_assignments@, id, 0) is None,
        },
{
    let mut k: usize = 0;
    while k < c.blocker_assignments.len()
        invariant
            k <= c.blocker_assignments@.len(),
            first_assignment(c.blocker_assignments@, id, 0) == first_assignment(c.blocker_assignments@, id, k as int),
        decreases c.blocker_assignments@.len() - k,
    {
        if c.blocker_assignments[k].0 == id {
            return Some(k);
        }
        k = k + 1;
    }
    None
}

fn attack_control_check(state: &GameState, c: &CombatState, a: usize) -> (w: Vec<String>)
    requires
        a < c.attackers@.len(),
    ensures
        views(w@) == attack_control_messages(*state, *c, a as int),
        w@.len() == 0 <==> attack_control_ok(*state, *c, a as int),
{
    let id = c.attackers[a].0;
    let d = c.attackers[a].1;
    let mut w = no_messages();
    match state.get_object(id) {
        Some(o) => {
            if o.zone == Zone::Battlefield && o.controller != state.active_player {
                let mut m = String::from_str("attacker ");
                let r = obj_ref_str(o);
                m.append(r.as_str());
                m.append(" is controlled by p");
                add_num(&mut m, o.controller.0 as u64);
                m.append(", not the active player");
                put(&mut w, m);
            }
        },
        None => {},
    }
    let mut u = no_messages();
    match first_assignment_of(c, id) {
        Some(k) => {
            let bl = &c.blocker_assignments[k].1;
            let mut j: usize = 0;
            while j < bl.len()
                invariant
                    *bl == c.blocker_assignments@[k as int].1,
                    bl@ == blockers_of(*c, id),
                    j <= bl@.len(),
                    views(u@) == each_blocker_control(*state, bl@, d, j as nat),
                    u@.len() == 0 <==> forall|y: int| 0 <= y < j ==> !#[trigger] blocker_astray(*state, bl@[y], d),
                decreases bl@.len() - j,
            {
                let ghost before = u@;
                match state.get_object(bl[j]) {
                    Some(bo) => {
                        if bo.zone == Zone::Battlefield && bo.controller != d {
                            let mut m = String::from_str("blocker ");
                            let r = obj_ref_str(bo);
                            m.append(r.as_str());
                            m.append(" is controlled by p");
                            add_num(&mut m, bo.controller.0 as u64);
                            m.append(", not the defending player p");
                            add_num(&mut m, d.0 as u64);
                            put(&mut u, m);
                        }
                    },
                    None => {},
                }
                assert(u@.len() == before.len() <==> !blocker_astray(*state, bl@[j as int], d));
                assert(u@.len() >= before.len());
                j = j + 1;
            }
        },
        None => {},
    }
    put_all(&mut w, u);
    w
}

fn combat_control_check(state: &GameState) -> (w: Vec<String>)
    ensures
        views(w@) == combat_control_messages(*state),
        w@.len() == 0 <==> combat_control_ok(*state),
{
    let mut w = no_messages();
    match &state.combat {
        Some(c) => {
            let mut a: usize = 0;
            while a < c.attackers.len()
                invariant
                    state.combat == Some(*c),
                    a <= c.attackers@.len(),
                    views(w@) == each_attack_control(*state, *c, a as nat),
                    w@.len() == 0 <==> forall|x: int| 0 <= x < a ==> #[trigger] attack_control_ok(*state, *c, x),
                decreases c.attackers@.len() - a,
            {
                put_all(&mut w, attack_control_check(state, c, a));
                a = a + 1;
            }
        },
        None => {},
    }
    w
}

/// Whether every player and every controller can be counted.
fn is_seated(state: &GameState) -> (b: bool)
    ensures
        b == state.seated(),
{
    let mut seated = state.players.len() > 0;
    let mut c: usize = 0;
    while c < state.objects.len()
        invariant
            c <= state.objects@.len(),
            seated == (state.players@.len() > 0 && forall|j: int| 0 <= j < c ==> #[trigger] state.objects@[j].controller.0 < 255),
        decreases state.objects@.len() - c,
    {
        if state.objects[c].controller.0 >= 255 {
            seated = false;
        }
        c = c + 1;
    }
    seated
}

/// The settled checks alone, in the order of `settled_messages`.
#[verifier::rlimit(40)]
fn settled_check(state: &GameState, registry: &CardRegistry) -> (s: Vec<String>)
    ensures
        views(s@) == settled_messages(*state, *registry),
        s@.len() == 0 <==> settled_ok(*state, *registry),
{
    let seated = is_seated(state);
    let mut s = objects_check(state, registry, ObjectCheck::Token);
    put_all(&mut s, objects_check(state, registry, ObjectCheck::Markings));
    put_all(&mut s, players_check(state, PlayerCheck::Loss));
    if seated {
        put_all(&mut s, objects_check(state, registry, ObjectCheck::Creature));
    } else {
        put_all(&mut s, no_messages());
    }
    let mut c = no_messages();
    if !(state.combat.is_none() || state.step == Step::DeclareAttackers || state.step == Step::DeclareBlockers
        || state.step == Step::CombatDamage) {
        let mut m = String::from_str("combat state present in step ");
        m.append(step_str(state.step));
        put(&mut c, m);
    }
    put_all(&mut s, c);
    put_all(&mut s, combat_control_check(state));
    let mut t = no_messages();
    if state.awaiting_action.is_none() && state.priority_player.is_some() {
        let waiting = state.pending_triggers.len() as u128 + state.book.pending_trigger_pushes_ap.len() as u128
            + state.book.pending_trigger_pushes_nap.len() as u128;
        if waiting != 0 {
            let mut m = crate::text::decimal_wide(waiting);
            m.append(" collected trigger(s) still queued while a player holds priority");
            put(&mut t, m);
        }
    }
    put_all(&mut s, t);
    if seated {
        put_all(&mut s, objects_check(state, registry, ObjectCheck::HasPowerToughness));
    } else {
        put_all(&mut s, no_messages());
    }
    put_all(&mut s, objects_check(state, registry, ObjectCheck::LoyaltyOnlyPlaneswalkers));
    if seated {
        put_all(&mut s, objects_check(state, registry, ObjectCheck::Deathtouch));
    } else {
        put_all(&mut s, no_messages());
    }
    put_all(&mut s, objects_check(state, registry, ObjectCheck::ZeroLoyalty));
    put_all(&mut s, objects_check(state, registry, ObjectCheck::BothCounters));
    put_all(&mut s, outcome_check(state));
    put_all(&mut s, combat_turn_check(state));
    put_all(&mut s, blocked_marked_check(state));
    s
}

/// The invariants of a state on which the state-based actions have just
/// run to a fixed point: the messages of `check_core` first, then those of
/// the settled checks, none when the state is coherent.
pub fn check_settled(state: &GameState, registry: &CardRegistry) -> (v: Vec<String>)
    ensures
        views(v@) == core_messages(*state, *registry) + settled_messages(*state, *registry),
        v@.len() == 0 <==> core_ok(*state, *registry) && settled_ok(*state, *registry),
{
    let mut v = check_core(state, registry);
    put_all(&mut v, settled_check(state, registry));
    v
}

/// The settled checks report every violation of every decision point
/// first, in the same order, and then their own.
pub proof fn law_settled_reports_core_first(st: GameState, reg: CardRegistry)
    ensures
        core_messages(st, reg).len() <= (core_messages(st, reg) + settled_messages(st, reg)).len(),
        (core_messages(st, reg) + settled_messages(st, reg)).take(core_messages(st, reg).len() as int)
            == core_messages(st, reg),
{
    assert((core_messages(st, reg) + settled_messages(st, reg)).take(core_messages(st, reg).len() as int)
        =~= core_messages(st, reg));
}

// ----------------------------------------------------------------------
// Two consecutive decision points

/// The card an object is printed as: the card it copies, else its own.
pub open spec fn printed_card(o: GameObject) -> crate::ids::CardId {
    match o.copy_grantor {
        Some(c) => c,
        None => o.card_id,
    }
}

/// How a transition message names an object: `#`, its id, then its name in
/// brackets.
pub open spec fn hash_ref(o: GameObject) -> Seq<char> {
    "#"@ + obj_ref(o)
}

fn hash_ref_str(o: &GameObject) -> (s: String)
    ensures
        s@ == hash_ref(*o),
{
    let mut s = String::from_str("#");
    let r = obj_ref_str(o);
    s.append(r.as_str());
    s
}

/// A card kept its place and its face but not its name.
pub open spec fn renamed(a: GameObject, b: GameObject) -> bool {
    !a.is_token && a.zone_change_count == b.zone_change_count && a.copy_grantor is None
        && b.copy_grantor is None && a.is_transformed == b.is_transformed && a.name@ != b.name@
}

/// The object's card changed without a copy on the battlefield or a zone
/// change out of a copy.
pub open spec fn card_changed(a: GameObject, b: GameObject) -> bool {
    b.card_id != a.card_id && !((b.copy_grantor is Some && b.zone == Zone::Battlefield)
        || (a.copy_grantor is Some && b.zone_change_count > a.zone_change_count))
}

/// What one object of the earlier state may have become (CR 108.3, 400.7,
/// 111.7, 707.2): a card never ceases to exist; owner, token-ness and the
/// printed card stay; a card keeps its name unless copied, transformed or
/// moved; its card changes only with a copy on the battlefield or a zone
/// change out of a copy.
pub open spec fn identity_kept(a: GameObject, b: Option<GameObject>) -> bool {
    match b {
        None => a.is_token,
        Some(b) => {
            &&& b.owner == a.owner && b.is_token == a.is_token && printed_card(b) == printed_card(a)
            &&& !renamed(a, b)
            &&& !card_changed(a, b)
        },
    }
}

pub open spec fn identity_messages(a: GameObject, b: Option<GameObject>) -> Seq<Seq<char>> {
    let none = Seq::<Seq<char>>::empty();
    match b {
        None => when(none, !a.is_token, "card "@ + hash_ref(a) + " ceased to exist (CR 108.3)"@),
        Some(b) => when(when(when(when(when(none,
            b.owner != a.owner, hash_ref(a) + " changed owner p"@ + spec_decimal(a.owner.0 as nat) + " -> p"@
                + spec_decimal(b.owner.0 as nat) + " (CR 108.3)"@),
            b.is_token != a.is_token, hash_ref(a) + " changed token-ness"@),
            printed_card(b) != printed_card(a), hash_ref(a) + " changed printed card "@
                + spec_decimal(printed_card(a).0 as nat) + " -> "@ + spec_decimal(printed_card(b).0 as nat) + " (CR 707.2)"@),
            renamed(a, b), "#"@ + spec_decimal(a.id.0 as nat) + " was renamed \""@ + a.name@ + "\" -> \""@ + b.name@
                + "\" without a copy or transform"@),
            card_changed(a, b), hash_ref(a) + " changed card "@ + spec_decimal(a.card_id.0 as nat) + " -> "@
                + spec_decimal(b.card_id.0 as nat) + " without a copy or a zone change"@),
    }
}

/// What only grows stays grown for one object: its zone-change count,
/// a zone change counted, and an attack remembered while it stays the same
/// object.
pub open spec fn object_monotone(a: GameObject, b: Option<GameObject>, turn: u32) -> bool {
    b matches Some(b) ==> {
        &&& b.zone_change_count >= a.zone_change_count
        &&& (b.zone_change_count == a.zone_change_count ==> b.zone == a.zone)
        &&& !forgot_attack(a, b, turn)
    }
}

/// The object forgot an attack while it stayed the same object.
pub open spec fn forgot_attack(a: GameObject, b: GameObject, turn: u32) -> bool {
    a.attacked_on_turn matches Some(t) && b.zone_change_count == a.zone_change_count
        && b.attacked_on_turn != Some(t) && b.attacked_on_turn != Some(turn)
}

pub open spec fn monotone_messages(a: GameObject, b: Option<GameObject>, turn: u32) -> Seq<Seq<char>> {
    match b {
        None => Seq::empty(),
        Some(b) => when(when(when(Seq::empty(),
            b.zone_change_count < a.zone_change_count, hash_ref(a) + " zone_change_count went back "@
                + spec_decimal(a.zone_change_count as nat) + " -> "@ + spec_decimal(b.zone_change_count as nat)),
            b.zone_change_count == a.zone_change_count && b.zone != a.zone, hash_ref(a) + " moved "@ + zone_name(a.zone)
                + " -> "@ + zone_name(b.zone) + " without a zone change being counted (CR 400.7)"@),
            forgot_attack(a, b, turn), hash_ref(a) + " forgot attacking on turn "@
                + spec_decimal(a.attacked_on_turn.unwrap() as nat)),
    }
}

/// A new object of the later state is a token with a fresh id.
pub open spec fn new_object_ok(prev: GameState, b: GameObject) -> bool {
    prev.spec_obj(b.id) is None ==> b.is_token && b.id.0 >= prev.next_object_id
}

pub open spec fn new_object_messages(prev: GameState, b: GameObject) -> Seq<Seq<char>> {
    if prev.spec_obj(b.id) is None {
        when(when(Seq::empty(),
            !b.is_token, "card "@ + hash_ref(b) + " appeared mid-game (CR 108.3)"@),
            b.id.0 < prev.next_object_id, "new object #"@ + spec_decimal(b.id.0 as nat)
                + " reuses an id below the allocator's "@ + spec_decimal(prev.next_object_id as nat))
    } else {
        Seq::empty()
    }
}

/// What the player records keep from one decision point to the next.
pub open spec fn player_monotone(a: crate::state::PlayerState, b: crate::state::PlayerState) -> bool {
    &&& b.mulligan_count >= a.mulligan_count
    &&& (a.mulligan_kept ==> b.mulligan_kept)
    &&& (a.lost ==> b.lost && b.loss_reason == a.loss_reason)
}

pub open spec fn player_monotone_messages(a: crate::state::PlayerState, b: crate::state::PlayerState) -> Seq<Seq<char>> {
    when(when(when(Seq::empty(),
        b.mulligan_count < a.mulligan_count, "p"@ + spec_decimal(a.id.0 as nat) + " mulligan count went back"@),
        a.mulligan_kept && !b.mulligan_kept, "p"@ + spec_decimal(a.id.0 as nat) + " un-kept their hand"@),
        a.lost && !(b.lost && b.loss_reason == a.loss_reason), "p"@ + spec_decimal(a.id.0 as nat) + " un-lost the game (CR 104.3)"@)
}

/// The earlier state's object at `k` and what became of it.
pub open spec fn each_identity(prev: GameState, cur: GameState, n: nat) -> Seq<Seq<char>>
    decreases n,
{
    if n == 0 {
        Seq::empty()
    } else {
        each_identity(prev, cur, (n - 1) as nat)
            + identity_messages(prev.objects@[n - 1], cur.spec_obj(prev.objects@[n - 1].id))
    }
}

pub open spec fn each_new_object(prev: GameState, cur: GameState, n: nat) -> Seq<Seq<char>>
    decreases n,
{
    if n == 0 {
        Seq::empty()
    } else {
        each_new_object(prev, cur, (n - 1) as nat) + new_object_messages(prev, cur.objects@[n - 1])
    }
}

pub open spec fn each_monotone(prev: GameState, cur: GameState, n: nat) -> Seq<Seq<char>>
    decreases n,
{
    if n == 0 {
        Seq::empty()
    } else {
        each_monotone(prev, cur, (n - 1) as nat)
            + monotone_messages(prev.objects@[n - 1], cur.spec_obj(prev.objects@[n - 1].id), cur.turn_number)
    }
}

pub open spec fn each_player_monotone(prev: GameState, cur: GameState, n: nat) -> Seq<Seq<char>>
    decreases n,
{
    if n == 0 {
        Seq::empty()
    } else {
        each_player_monotone(prev, cur, (n - 1) as nat) + player_monotone_messages(prev.players@[n - 1], cur.players@[n - 1])
    }
}

/// How many players both states have.
pub open spec fn seats_in_both(prev: GameState, cur: GameState) -> nat {
    if prev.players@.len() <= cur.players@.len() { prev.players@.len() } else { cur.players@.len() }
}

/// The counters that only grow: the id allocator, the turn and the
/// action count.
pub open spec fn counters_messages(prev: GameState, cur: GameState) -> Seq<Seq<char>> {
    when(when(when(Seq::empty(),
        cur.next_object_id < prev.next_object_id, "next_object_id went back "@ + spec_decimal(prev.next_object_id as nat)
            + " -> "@ + spec_decimal(cur.next_object_id as nat)),
        cur.turn_number < prev.turn_number, "turn_number went back "@ + spec_decimal(prev.turn_number as nat)
            + " -> "@ + spec_decimal(cur.turn_number as nat)),
        cur.book.submit_seq < prev.book.submit_seq, "submit_seq went back "@ + spec_decimal(prev.book.submit_seq as nat)
            + " -> "@ + spec_decimal(cur.book.submit_seq as nat))
}

/// The log kept every line it had, unchanged at its end.
pub open spec fn log_kept(prev: GameState, cur: GameState) -> bool {
    &&& cur.game_log@.len() >= prev.game_log@.len()
    &&& (prev.game_log@.len() > 0 ==> cur.game_log@[prev.game_log@.len() - 1].message@ == prev.game_log@.last().message@)
}

pub open spec fn result_and_log_messages(prev: GameState, cur: GameState) -> Seq<Seq<char>> {
    let r = when(Seq::empty(), prev.result is Some && cur.result != prev.result, "the result changed (CR 104.4)"@);
    if cur.game_log@.len() < prev.game_log@.len() {
        r.push("the game log shrank"@)
    } else {
        when(r, !log_kept(prev, cur), "the game log was rewritten"@)
    }
}

/// The invariants of two consecutive decision points: identities kept,
/// counters that only grow, records that never revert (CR 104.3, 104.4),
/// and a log that only grows.
pub open spec fn transition_ok(prev: GameState, cur: GameState) -> bool {
    &&& forall|k: int| 0 <= k < prev.objects@.len() ==> identity_kept(#[trigger] prev.objects@[k], cur.spec_obj(prev.objects@[k].id))
    &&& forall|k: int| 0 <= k < cur.objects@.len() ==> new_object_ok(prev, #[trigger] cur.objects@[k])
    &&& cur.next_object_id >= prev.next_object_id
    &&& cur.turn_number >= prev.turn_number
    &&& cur.book.submit_seq >= prev.book.submit_seq
    &&& forall|k: int| 0 <= k < prev.objects@.len() ==> object_monotone(#[trigger] prev.objects@[k], cur.spec_obj(prev.objects@[k].id), cur.turn_number)
    &&& forall|p: int| 0 <= p < prev.players@.len() && p < cur.players@.len() ==> player_monotone(#[trigger] prev.players@[p], cur.players@[p])
    &&& (prev.result is Some ==> cur.result == prev.result)
    &&& log_kept(prev, cur)
}

/// The messages of two consecutive decision points, in the order they are
/// checked.
pub open spec fn transition_messages(prev: GameState, cur: GameState) -> Seq<Seq<char>> {
    each_identity(prev, cur, prev.objects@.len())
        + each_new_object(prev, cur, cur.objects@.len())
        + counters_messages(prev, cur)
        + each_monotone(prev, cur, prev.objects@.len())
        + each_player_monotone(prev, cur, seats_in_both(prev, cur))
        + result_and_log_messages(prev, cur)
}

fn identity_check(a: &GameObject, cur: &GameState) -> (w: Vec<String>)
    ensures
        views(w@) == identity_messages(*a, cur.spec_obj(a.id)),
        w@.len() == 0 <==> identity_kept(*a, cur.spec_obj(a.id)),
{
    let mut w = no_messages();
    match cur.get_object(a.id) {
        None => {
            if !a.is_token {
                let mut m = String::from_str("card ");
                let r = hash_ref_str(a);
                m.append(r.as_str());
                m.append(" ceased to exist (CR 108.3)");
                put(&mut w, m);
            }
        },
        Some(b) => {
            if b.owner != a.owner {
                let mut m = hash_ref_str(a);
                m.append(" changed owner p");
                add_num(&mut m, a.owner.0 as u64);
                m.append(" -> p");
                add_num(&mut m, b.owner.0 as u64);
                m.append(" (CR 108.3)");
                put(&mut w, m);
            }
            if b.is_token != a.is_token {
                let mut m = hash_ref_str(a);
                m.append(" changed token-ness");
                put(&mut w, m);
            }
            let pa = match a.copy_grantor { Some(c) => c, None => a.card_id };
            let pb = match b.copy_grantor { Some(c) => c, None => b.card_id };
            if pa != pb {
                let mut m = hash_ref_str(a);
                m.append(" changed printed card ");
                add_num(&mut m, pa.0 as u64);
                m.append(" -> ");
                add_num(&mut m, pb.0 as u64);
                m.append(" (CR 707.2)");
                put(&mut w, m);
            }
            if !a.is_token && a.zone_change_count == b.zone_change_count && a.copy_grantor.is_none()
                && b.copy_grantor.is_none() && a.is_transformed == b.is_transformed
                && !crate::util::str_eq(a.name.as_str(), b.name.as_str()) {
                let mut m = note("#", a.id.0, " was renamed \"");
                m.append(a.name.as_str());
                m.append("\" -> \"");
                m.append(b.name.as_str());
                m.append("\" without a copy or transform");
                put(&mut w, m);
            }
            if b.card_id != a.card_id && !((b.copy_grantor.is_some() && b.zone == Zone::Battlefield)
                || (a.copy_grantor.is_some() && b.zone_change_count > a.zone_change_count)) {
                let mut m = hash_ref_str(a);
                m.append(" changed card ");
                add_num(&mut m, a.card_id.0 as u64);
                m.append(" -> ");
                add_num(&mut m, b.card_id.0 as u64);
                m.append(" without a copy or a zone change");
                put(&mut w, m);
            }
        },
    }
    w
}

fn monotone_check(a: &GameObject, cur: &GameState) -> (w: Vec<String>)
    ensures
        views(w@) == monotone_messages(*a, cur.spec_obj(a.id), cur.turn_number),
        w@.len() == 0 <==> object_monotone(*a, cur.spec_obj(a.id), cur.turn_number),
{
    let mut w = no_messages();
    match cur.get_object(a.id) {
        None => {},
        Some(b) => {
            if b.zone_change_count < a.zone_change_count {
                let mut m = hash_ref_str(a);
                m.append(" zone_change_count went back ");
                add_num(&mut m, a.zone_change_count as u64);
                m.append(" -> ");
                add_num(&mut m, b.zone_change_count as u64);
                put(&mut w, m);
            }
            if b.zone_change_count == a.zone_change_count && b.zone != a.zone {
                let mut m = hash_ref_str(a);
                m.append(" moved ");
                m.append(zone_str(a.zone));
                m.append(" -> ");
                m.append(zone_str(b.zone));
                m.append(" without a zone change being counted (CR 400.7)");
                put(&mut w, m);
            }
            match a.attacked_on_turn {
                Some(t) => {
                    if b.zone_change_count == a.zone_change_count && b.attacked_on_turn != Some(t)
                        && b.attacked_on_turn != Some(cur.turn_number) {
                        let mut m = hash_ref_str(a);
                        m.append(" forgot attacking on turn ");
                        add_num(&mut m, t as u64);
                        put(&mut w, m);
                    }
                },
                None => {},
            }
        },
    }
    w
}

fn new_object_check(prev: &GameState, b: &GameObject) -> (w: Vec<String>)
    ensures
        views(w@) == new_object_messages(*prev, *b),
        w@.len() == 0 <==> new_object_ok(*prev, *b),
{
    let mut w = no_messages();
    if prev.get_object(b.id).is_none() {
        if !b.is_token {
            let mut m = String::from_str("card ");
            let r = hash_ref_str(b);
            m.append(r.as_str());
            m.append(" appeared mid-game (CR 108.3)");
            put(&mut w, m);
        }
        if b.id.0 < prev.next_object_id {
            let mut m = note("new object #", b.id.0, " reuses an id below the allocator's ");
            add_num(&mut m, prev.next_object_id);
            put(&mut w, m);
        }
    }
    w
}

fn player_monotone_check(a: &crate::state::PlayerState, b: &crate::state::PlayerState) -> (w: Vec<String>)
    ensures
        views(w@) == player_monotone_messages(*a, *b),
        w@.len() == 0 <==> player_monotone(*a, *b),
{
    let mut w = no_messages();
    if b.mulligan_count < a.mulligan_count {
        put(&mut w, note("p", a.id.0 as u64, " mulligan count went back"));
    }
    if a.mulligan_kept && !b.mulligan_kept {
        put(&mut w, note("p", a.id.0 as u64, " un-kept their hand"));
    }
    if a.lost && !(b.lost && b.loss_reason == a.loss_reason) {
        put(&mut w, note("p", a.id.0 as u64, " un-lost the game (CR 104.3)"));
    }
    w
}

fn counters_check(prev: &GameState, cur: &GameState) -> (w: Vec<String>)
    ensures
        views(w@) == counters_messages(*prev, *cur),
        w@.len() == 0 <==> cur.next_object_id >= prev.next_object_id && cur.turn_number >= prev.turn_number
            && cur.book.submit_seq >= prev.book.submit_seq,
{
    let mut w = no_messages();
    if cur.next_object_id < prev.next_object_id {
        let mut m = note("next_object_id went back ", prev.next_object_id, " -> ");
        add_num(&mut m, cur.next_object_id);
        put(&mut w, m);
    }
    if cur.turn_number < prev.turn_number {
        let mut m = note("turn_number went back ", prev.turn_number as u64, " -> ");
        add_num(&mut m, cur.turn_number as u64);
        put(&mut w, m);
    }
    if cur.book.submit_seq < prev.book.submit_seq {
        let mut m = note("submit_seq went back ", prev.book.submit_seq, " -> ");
        add_num(&mut m, cur.book.submit_seq);
        put(&mut w, m);
    }
    w
}

fn result_and_log_check(prev: &GameState, cur: &GameState) -> (w: Vec<String>)
    ensures
        views(w@) == result_and_log_messages(*prev, *cur),
        w@.len() == 0 <==> (prev.result is Some ==> cur.result == prev.result) && log_kept(*prev, *cur),
{
    let mut w = no_messages();
    match prev.result {
        Some(r) => {
            if cur.result != Some(r) {
                put(&mut w, String::from_str("the result changed (CR 104.4)"));
            }
        },
        None => {},
    }
    let pl = prev.game_log.len();
    if cur.game_log.len() < pl {
        put(&mut w, String::from_str("the game log shrank"));
    } else if pl > 0 && !crate::util::str_eq(cur.game_log[pl - 1].message.as_str(), prev.game_log[pl - 1].message.as_str()) {
        put(&mut w, String::from_str("the game log was rewritten"));
    }
    w
}

/// One message per violation of the pair of consecutive decision points
/// `prev` and `cur`, in the order of `transition_messages`: identities
/// kept, counters that only grow, records that never revert, and a log
/// that only grows.
pub fn check_transition(prev: &GameState, cur: &GameState, registry: &CardRegistry) -> (v: Vec<String>)
    ensures
        views(v@) == transition_messages(*prev, *cur),
        v@.len() == 0 <==> transition_ok(*prev, *cur),
{
    let mut v = no_messages();
    let mut k: usize = 0;
    while k < prev.objects.len()
        invariant
            k <= prev.objects@.len(),
            views(v@) == each_identity(*prev, *cur, k as nat),
            v@.len() == 0 <==> forall|j: int| 0 <= j < k ==> identity_kept(#[trigger] prev.objects@[j], cur.spec_obj(prev.objects@[j].id)),
        decreases prev.objects@.len() - k,
    {
        put_all(&mut v, identity_check(&prev.objects[k], cur));
        k = k + 1;
    }
    let mut u = no_messages();
    let mut k: usize = 0;
    while k < cur.objects.len()
        invariant
            k <= cur.objects@.len(),
            views(u@) == each_new_object(*prev, *cur, k as nat),
            u@.len() == 0 <==> forall|j: int| 0 <= j < k ==> new_object_ok(*prev, #[trigger] cur.objects@[j]),
        decreases cur.objects@.len() - k,
    {
        put_all(&mut u, new_object_check(prev, &cur.objects[k]));
        k = k + 1;
    }
    put_all(&mut v, u);
    put_all(&mut v, counters_check(prev, cur));
    let mut u = no_messages();
    let mut k: usize = 0;
    while k < prev.objects.len()
        invariant
            k <= prev.objects@.len(),
            views(u@) == each_monotone(*prev, *cur, k as nat),
            u@.len() == 0 <==> forall|j: int| 0 <= j < k ==> object_monotone(#[trigger] prev.objects@[j], cur.spec_obj(prev.objects@[j].id), cur.turn_number),
        decreases prev.objects@.len() - k,
    {
        put_all(&mut u, monotone_check(&prev.objects[k], cur));
        k = k + 1;
    }
    put_all(&mut v, u);
    let mut u = no_messages();
    let mut p: usize = 0;
    while p < prev.players.len() && p < cur.players.len()
        invariant
            p <= prev.players@.len(),
            p <= cur.players@.len(),
            views(u@) == each_player_monotone(*prev, *cur, p as nat),
            u@.len() == 0 <==> forall|q: int| 0 <= q < p ==> player_monotone(#[trigger] prev.players@[q], cur.players@[q]),
        decreases prev.players@.len() - p,
    {
        put_all(&mut u, player_monotone_check(&prev.players[p], &cur.players[p]));
        p = p + 1;
    }
    proof {
        assert(p as nat == seats_in_both(*prev, *cur));
        assert((forall|q: int| 0 <= q < p ==> player_monotone(#[trigger] prev.players@[q], cur.players@[q]))
            == (forall|q: int| 0 <= q < prev.players@.len() && q < cur.players@.len() ==> player_monotone(#[trigger] prev.players@[q], cur.players@[q])));
    }
    put_all(&mut v, u);
    put_all(&mut v, result_and_log_check(prev, cur));
    proof {
        assert(Seq::<Seq<char>>::empty() + each_identity(*prev, *cur, prev.objects@.len()) =~= each_identity(*prev, *cur, prev.objects@.len()));
    }
    v
}

} // verus!
