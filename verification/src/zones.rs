//! Moving objects between zones (CR 400): the new-object rule (CR 400.7),
//! the ordered library and graveyard, entering the battlefield through the
//! replacement layer, and the events every move announces.

use vstd::prelude::*;
use crate::cards::{CardData, CardRegistry};
use crate::events::GameEvent;
use crate::ids::{CardId, ObjectId, PlayerId};
use crate::objects::{logged, spec_add_counters, spec_counter};
use crate::replacement::{for_entering, sp_for_entering, EnteringPermanent, EnteringView};
use crate::state::{
    spec_until_eot_object_target, until_eot_object_target, ControlEffect, EnterAsCopyChoice, GameObject,
    GameState, LibraryPosition, LogLevel, SetPtEffect, TemporaryEffect,
};
use crate::types::{CardType, Color, CounterType, Keyword, Zone};
use crate::text::{decimal, signed_decimal, spec_decimal, spec_signed_decimal, views};
use crate::util::{drop_id, remove_id, str_eq};

verus! {

/// The card state as (key, value) pairs of plain values.
pub open spec fn state_views(s: Seq<(String, ObjectId)>) -> Seq<(Seq<char>, ObjectId)> {
    s.map_values(|p: (String, ObjectId)| (p.0@, p.1))
}

/// The first position of a key among the card state's entries.
pub open spec fn key_index(s: Seq<(Seq<char>, ObjectId)>, key: Seq<char>) -> Option<int>
    decreases s.len(),
{
    if s.len() == 0 {
        None
    } else {
        match key_index(s.drop_last(), key) {
            Some(k) => Some(k),
            None => if s.last().0 == key { Some(s.len() - 1) } else { None },
        }
    }
}

/// The card state with `key` set to `value`.
pub open spec fn state_put(s: Seq<(Seq<char>, ObjectId)>, key: Seq<char>, value: ObjectId) -> Seq<(Seq<char>, ObjectId)> {
    match key_index(s, key) {
        Some(k) => s.update(k, (key, value)),
        None => s.push((key, value)),
    }
}

/// The printed card a non-token leaving for another zone reverts to: the
/// card a copy is printed as, else its own (CR 400.7, 712.8a).
pub open spec fn printed_reset(o: GameObject, to: Zone, reg: CardRegistry) -> Option<CardData> {
    if to != Zone::Battlefield && !o.is_token {
        match reg.spec_get(match o.copy_grantor { Some(p) => p, None => o.card_id }) {
            Some(c) => Some(c.front),
            None => None,
        }
    } else {
        None
    }
}

/// What a zone change makes of an object (before any entering replacement
/// applies): a permanent leaving the battlefield becomes a new object with
/// no memory of the old one (CR 400.7), controlled by its owner
/// (CR 108.4), printed as its front face (CR 712.8a); a permanent entering
/// is summoning sick with its controller as its default one (CR 110.2a).
#[verifier::opaque]
pub open spec fn moved_object(o: GameObject, n: GameObject, to: Zone, printed: Option<CardData>) -> bool {
    let from = o.zone;
    let leaving = from == Zone::Battlefield && to != Zone::Battlefield;
    let entering = to == Zone::Battlefield && from != Zone::Battlefield;
    let wipe = leaving && !o.is_token;
    &&& n.id == o.id && n.owner == o.owner && n.zone == to
    &&& n.zone_change_count == vstd::wrapping::u32_specs::wrapping_add(o.zone_change_count, 1)
    &&& n.controller == (if leaving { o.owner } else { o.controller })
    &&& n.last_controller == (if leaving { Some(o.controller) } else { o.last_controller })
    &&& n.base_controller == (if entering { o.controller } else { o.base_controller })
    &&& n.tapped == (if leaving { false } else { o.tapped })
    &&& n.summoning_sick == (if entering { true } else if leaving { false } else { o.summoning_sick })
    &&& n.attacked_on_turn == (if leaving { None } else { o.attacked_on_turn })
    &&& n.damage_marked == (if leaving { 0 } else { o.damage_marked })
    &&& n.dealt_deathtouch_damage == (if leaving { false } else { o.dealt_deathtouch_damage })
    &&& n.damaged_by@ == (if leaving { Seq::empty() } else { o.damaged_by@ })
    &&& state_views(n.card_state@) == (if entering {
            Seq::empty()
        } else if leaving && o.attached_to is Some {
            state_put(state_views(o.card_state@), "last_attached_to"@, o.attached_to.unwrap())
        } else {
            state_views(o.card_state@)
        })
    &&& n.attached_to == (if leaving { None } else { o.attached_to })
    &&& n.attached_to_player == (if leaving { None } else { o.attached_to_player })
    &&& n.last_attached_to_player == (if entering { None } else if leaving { o.attached_to_player } else { o.last_attached_to_player })
    &&& n.counters@ == (if leaving { Seq::empty() } else { o.counters@ })
    &&& n.regeneration_shields == (if leaving { 0 } else { o.regeneration_shields })
    &&& n.abilities_activated_this_turn@ == (if leaving { Seq::empty() } else { o.abilities_activated_this_turn@ })
    &&& n.subtypes@ == (if wipe { Seq::empty() } else { o.subtypes@ })
    &&& n.colors@ == (if wipe { Seq::empty() } else { o.colors@ })
    &&& n.card_types@ == (if wipe { Seq::empty() } else { o.card_types@ })
    &&& n.keywords@ == (if wipe { Seq::empty() } else { o.keywords@ })
    &&& n.is_legendary == (if wipe { false } else { o.is_legendary })
    &&& n.card_id == (if leaving && o.copy_grantor is Some { o.copy_grantor.unwrap() } else { o.card_id })
    &&& n.copy_grantor == (if leaving { None } else { o.copy_grantor })
    &&& n.is_transformed == (if leaving { false } else { o.is_transformed })
    &&& n.name@ == (if leaving && printed is Some { printed.unwrap().name@ } else { o.name@ })
    &&& n.power == (if leaving && printed is Some { printed.unwrap().power } else { o.power })
    &&& n.toughness == (if leaving && printed is Some { printed.unwrap().toughness } else { o.toughness })
    &&& n.instance_continuous_effects == (if leaving { None } else { o.instance_continuous_effects })
    &&& n.instance_oracle_text == (if leaving { None } else { o.instance_oracle_text })
    &&& n.cast_with_flashback == (if to == Zone::Hand || to == Zone::Library { false } else { o.cast_with_flashback })
    &&& n.cast_from_zone == (if to == Zone::Hand || to == Zone::Library { None } else { o.cast_from_zone })
    &&& n.x_value == (if to != Zone::Battlefield && to != Zone::Stack { None } else { o.x_value })
    &&& n.entering_copy_choice == (if to != Zone::Battlefield { EnterAsCopyChoice::Unasked } else { o.entering_copy_choice })
    &&& n.is_token == o.is_token && n.targets == o.targets && n.state_trigger_on_stack == o.state_trigger_on_stack
    &&& n.chosen_mode == o.chosen_mode && n.token_face == o.token_face
}

fn put_card_state(s: &mut Vec<(String, ObjectId)>, key: &str, value: ObjectId)
    ensures
        state_views(final(s)@) == state_put(state_views(old(s)@), key@, value),
{
    let ghost v0 = state_views(s@);
    let mut i: usize = 0;
    while i < s.len()
        invariant
            i <= s@.len(),
            s@ == old(s)@,
            state_views(s@) == v0,
            key_index(v0.take(i as int), key@) is None,
        decreases s@.len() - i,
    {
        proof { assert(v0.take(i + 1).drop_last() =~= v0.take(i as int)); }
        if str_eq(s[i].0.as_str(), key) {
            proof {
                assert(v0[i as int].0 == key@);
                lemma_key_index_prefix(v0, key@, i + 1);
            }
            s.set(i, (String::from_str(key), value));
            proof {
                assert(state_views(s@) =~= state_put(v0, key@, value));
            }
            return;
        }
        i = i + 1;
    }
    proof { assert(v0.take(i as int) =~= v0); }
    s.push((String::from_str(key), value));
    proof {
        assert(state_views(s@) =~= state_put(v0, key@, value));
    }
}

proof fn lemma_key_index_prefix(s: Seq<(Seq<char>, ObjectId)>, key: Seq<char>, n: int)
    requires
        0 <= n <= s.len(),
        key_index(s.take(n), key) is Some,
    ensures
        key_index(s, key) == key_index(s.take(n), key),
    decreases s.len() - n,
{
    if n < s.len() {
        assert(s.take(n + 1).drop_last() =~= s.take(n));
        lemma_key_index_prefix(s, key, n + 1);
    } else {
        assert(s.take(n) =~= s);
    }
}

#[verifier::spinoff_prover]
fn move_object_fields(o: &mut GameObject, to: Zone, printed: Option<(String, Option<i32>, Option<i32>)>,
    Ghost(pr): Ghost<Option<CardData>>)
    requires
        match pr {
            Some(d) => printed matches Some(p) && p.0@ == d.name@ && p.1 == d.power && p.2 == d.toughness,
            None => printed is None,
        },
    ensures
        moved_object(*old(o), *final(o), to, pr),
{
    let from = o.zone;
    if from == Zone::Battlefield && to != Zone::Battlefield {
        reset_for_leaving(o, printed);
    }
    o.zone = to;
    o.zone_change_count = o.zone_change_count.wrapping_add(1);
    if to == Zone::Hand || to == Zone::Library {
        o.cast_with_flashback = false;
        o.cast_from_zone = None;
    }
    if to != Zone::Battlefield && to != Zone::Stack {
        o.x_value = None;
    }
    if to == Zone::Battlefield && from != Zone::Battlefield {
        o.card_state = Vec::new();
        assert(state_views(o.card_state@) =~= Seq::<(Seq<char>, ObjectId)>::empty());
        o.last_attached_to_player = None;
        o.summoning_sick = true;
        o.base_controller = o.controller;
    }
    if to != Zone::Battlefield {
        o.entering_copy_choice = EnterAsCopyChoice::Unasked;
    }
    proof {
        reveal(moved_object);
    }
}

/// What leaving the battlefield wipes (CR 400.7, 108.4, 712.8a).
pub open spec fn left_battlefield(o: GameObject, n: GameObject) -> bool {
    let wipe = !o.is_token;
    &&& n.id == o.id && n.owner == o.owner && n.zone == o.zone && n.zone_change_count == o.zone_change_count
    &&& n.controller == o.owner && n.last_controller == Some(o.controller) && n.base_controller == o.base_controller
    &&& !n.tapped && !n.summoning_sick && n.attacked_on_turn is None && n.damage_marked == 0
    &&& !n.dealt_deathtouch_damage && n.damaged_by@ == Seq::<ObjectId>::empty()
    &&& state_views(n.card_state@) == (if o.attached_to is Some {
            state_put(state_views(o.card_state@), "last_attached_to"@, o.attached_to.unwrap())
        } else {
            state_views(o.card_state@)
        })
    &&& n.attached_to is None && n.attached_to_player is None && n.last_attached_to_player == o.attached_to_player
    &&& n.counters@ == Seq::<(CounterType, u32)>::empty() && n.regeneration_shields == 0
    &&& n.abilities_activated_this_turn@ == Seq::<usize>::empty()
    &&& n.subtypes@ == (if wipe { Seq::empty() } else { o.subtypes@ })
    &&& n.colors@ == (if wipe { Seq::empty() } else { o.colors@ })
    &&& n.card_types@ == (if wipe { Seq::empty() } else { o.card_types@ })
    &&& n.keywords@ == (if wipe { Seq::empty() } else { o.keywords@ })
    &&& n.is_legendary == (if wipe { false } else { o.is_legendary })
    &&& n.card_id == (if o.copy_grantor is Some { o.copy_grantor.unwrap() } else { o.card_id })
    &&& n.copy_grantor is None && !n.is_transformed
    &&& n.instance_continuous_effects is None && n.instance_oracle_text is None
    &&& n.cast_with_flashback == o.cast_with_flashback && n.cast_from_zone == o.cast_from_zone
    &&& n.x_value == o.x_value && n.entering_copy_choice == o.entering_copy_choice
    &&& n.is_token == o.is_token && n.targets == o.targets && n.state_trigger_on_stack == o.state_trigger_on_stack
    &&& n.chosen_mode == o.chosen_mode && n.token_face == o.token_face
}

#[verifier::spinoff_prover]
fn reset_for_leaving(o: &mut GameObject, printed: Option<(String, Option<i32>, Option<i32>)>)
    ensures
        left_battlefield(*old(o), *final(o)),
        printed is Some ==> final(o).name@ == printed.unwrap().0@ && final(o).power == printed.unwrap().1
            && final(o).toughness == printed.unwrap().2,
        printed is None ==> final(o).name == old(o).name && final(o).power == old(o).power
            && final(o).toughness == old(o).toughness,
{
    o.last_controller = Some(o.controller);
    o.controller = o.owner;
    o.tapped = false;
    o.summoning_sick = false;
    o.attacked_on_turn = None;
    o.damage_marked = 0;
    o.dealt_deathtouch_damage = false;
    o.damaged_by = Vec::new();
    match o.attached_to {
        Some(att) => put_card_state(&mut o.card_state, "last_attached_to", att),
        None => {},
    }
    o.attached_to = None;
    o.last_attached_to_player = o.attached_to_player;
    o.attached_to_player = None;
    o.counters = Vec::new();
    o.regeneration_shields = 0;
    o.abilities_activated_this_turn = Vec::new();
    if !o.is_token {
        o.subtypes = Vec::new();
        o.colors = Vec::new();
        o.card_types = Vec::new();
        o.keywords = Vec::new();
        o.is_legendary = false;
    }
    match o.copy_grantor {
        Some(p) => {
            o.card_id = p;
            o.copy_grantor = None;
        },
        None => {},
    }
    o.is_transformed = false;
    match printed {
        Some((name, power, toughness)) => {
            o.name = name;
            o.power = power;
            o.toughness = toughness;
        },
        None => {},
    }
    o.instance_continuous_effects = None;
    o.instance_oracle_text = None;
}

/// The until-end-of-turn effects without those about `id`.
pub open spec fn drop_eot(t: Seq<TemporaryEffect>, id: ObjectId) -> Seq<TemporaryEffect>
    decreases t.len(),
{
    if t.len() == 0 {
        t
    } else {
        let prior = drop_eot(t.drop_last(), id);
        if spec_until_eot_object_target(&t.last()) == Some(id) { prior } else { prior.push(t.last()) }
    }
}

/// The control effects without those on `id`.
pub open spec fn drop_control(c: Seq<ControlEffect>, id: ObjectId) -> Seq<ControlEffect>
    decreases c.len(),
{
    if c.len() == 0 {
        c
    } else {
        let prior = drop_control(c.drop_last(), id);
        if c.last().object == id { prior } else { prior.push(c.last()) }
    }
}

/// The set-P/T effects without those on `id`.
pub open spec fn drop_set_pt(c: Seq<SetPtEffect>, id: ObjectId) -> Seq<SetPtEffect>
    decreases c.len(),
{
    if c.len() == 0 {
        c
    } else {
        let prior = drop_set_pt(c.drop_last(), id);
        if c.last().object == id { prior } else { prior.push(c.last()) }
    }
}

fn remove_eot_on(v: &mut Vec<TemporaryEffect>, id: ObjectId)
    ensures
        final(v)@ == drop_eot(old(v)@, id),
{
    let ghost orig = v@;
    let mut i: usize = 0;
    let ghost mut k: int = 0;
    proof {
        assert(orig.take(0) =~= Seq::<TemporaryEffect>::empty());
        assert(v@ =~= drop_eot(orig.take(0), id) + orig.skip(0));
    }
    while i < v.len()
        invariant
            0 <= k <= orig.len(),
            v@ == drop_eot(orig.take(k), id) + orig.skip(k),
            i == drop_eot(orig.take(k), id).len(),
        decreases orig.len() - k,
    {
        proof {
            assert(orig.take(k + 1).drop_last() =~= orig.take(k));
            assert(v@[i as int] == orig[k]);
        }
        if until_eot_object_target(&v[i]) == Some(id) {
            v.remove(i);
            proof { assert(v@ =~= drop_eot(orig.take(k + 1), id) + orig.skip(k + 1)); }
        } else {
            i = i + 1;
            proof { assert(v@ =~= drop_eot(orig.take(k + 1), id) + orig.skip(k + 1)); }
        }
        proof { k = k + 1; }
    }
    proof {
        assert(orig.take(k) =~= orig);
        assert(v@ =~= drop_eot(orig, id));
    }
}

fn remove_control_on(v: &mut Vec<ControlEffect>, id: ObjectId)
    ensures
        final(v)@ == drop_control(old(v)@, id),
{
    let ghost orig = v@;
    let mut i: usize = 0;
    let ghost mut k: int = 0;
    proof {
        assert(orig.take(0) =~= Seq::<ControlEffect>::empty());
        assert(v@ =~= drop_control(orig.take(0), id) + orig.skip(0));
    }
    while i < v.len()
        invariant
            0 <= k <= orig.len(),
            v@ == drop_control(orig.take(k), id) + orig.skip(k),
            i == drop_control(orig.take(k), id).len(),
        decreases orig.len() - k,
    {
        proof {
            assert(orig.take(k + 1).drop_last() =~= orig.take(k));
            assert(v@[i as int] == orig[k]);
        }
        if v[i].object == id {
            v.remove(i);
            proof { assert(v@ =~= drop_control(orig.take(k + 1), id) + orig.skip(k + 1)); }
        } else {
            i = i + 1;
            proof { assert(v@ =~= drop_control(orig.take(k + 1), id) + orig.skip(k + 1)); }
        }
        proof { k = k + 1; }
    }
    proof {
        assert(orig.take(k) =~= orig);
        assert(v@ =~= drop_control(orig, id));
    }
}

fn remove_set_pt_on(v: &mut Vec<SetPtEffect>, id: ObjectId)
    ensures
        final(v)@ == drop_set_pt(old(v)@, id),
{
    let ghost orig = v@;
    let mut i: usize = 0;
    let ghost mut k: int = 0;
    proof {
        assert(orig.take(0) =~= Seq::<SetPtEffect>::empty());
        assert(v@ =~= drop_set_pt(orig.take(0), id) + orig.skip(0));
    }
    while i < v.len()
        invariant
            0 <= k <= orig.len(),
            v@ == drop_set_pt(orig.take(k), id) + orig.skip(k),
            i == drop_set_pt(orig.take(k), id).len(),
        decreases orig.len() - k,
    {
        proof {
            assert(orig.take(k + 1).drop_last() =~= orig.take(k));
            assert(v@[i as int] == orig[k]);
        }
        if v[i].object == id {
            v.remove(i);
            proof { assert(v@ =~= drop_set_pt(orig.take(k + 1), id) + orig.skip(k + 1)); }
        } else {
            i = i + 1;
            proof { assert(v@ =~= drop_set_pt(orig.take(k + 1), id) + orig.skip(k + 1)); }
        }
        proof { k = k + 1; }
    }
    proof {
        assert(orig.take(k) =~= orig);
        assert(v@ =~= drop_set_pt(orig, id));
    }
}

/// Whether moving this object to `to` waits for an enters-as-a-copy
/// choice (CR 614.12b): it is entering the battlefield from elsewhere, its
/// card chooses a copy as it enters, and nobody has been asked yet.
pub open spec fn defers(st: GameState, id: ObjectId, to: Zone, reg: CardRegistry) -> bool {
    to == Zone::Battlefield && (st.spec_obj(id) matches Some(o) && o.zone != Zone::Battlefield
        && o.entering_copy_choice == EnterAsCopyChoice::Unasked
        && (reg.spec_get(o.card_id) matches Some(c) && c.chooses_copy_as_it_enters))
}

/// The controllers deferred entries wait under, with `id`'s set to `c`.
pub open spec fn controllers_put(s: Seq<(ObjectId, PlayerId)>, id: ObjectId, c: PlayerId) -> Seq<(ObjectId, PlayerId)> {
    match pair_index(s, id) {
        Some(k) => s.update(k, (id, c)),
        None => s.push((id, c)),
    }
}

/// The first position of `id` among the pairs.
pub open spec fn pair_index(s: Seq<(ObjectId, PlayerId)>, id: ObjectId) -> Option<int>
    decreases s.len(),
{
    if s.len() == 0 {
        None
    } else {
        match pair_index(s.drop_last(), id) {
            Some(k) => Some(k),
            None => if s.last().0 == id { Some(s.len() - 1) } else { None },
        }
    }
}

proof fn lemma_pair_index_prefix(s: Seq<(ObjectId, PlayerId)>, id: ObjectId, n: int)
    requires
        0 <= n <= s.len(),
        pair_index(s.take(n), id) is Some,
    ensures
        pair_index(s, id) == pair_index(s.take(n), id),
    decreases s.len() - n,
{
    if n < s.len() {
        assert(s.take(n + 1).drop_last() =~= s.take(n));
        lemma_pair_index_prefix(s, id, n + 1);
    } else {
        assert(s.take(n) =~= s);
    }
}

fn put_controller(v: &mut Vec<(ObjectId, PlayerId)>, id: ObjectId, c: PlayerId)
    ensures
        final(v)@ == controllers_put(old(v)@, id, c),
{
    let mut i: usize = 0;
    while i < v.len()
        invariant
            i <= v@.len(),
            v@ == old(v)@,
            pair_index(v@.take(i as int), id) is None,
        decreases v@.len() - i,
    {
        proof { assert(v@.take(i + 1).drop_last() =~= v@.take(i as int)); }
        if v[i].0 == id {
            proof { lemma_pair_index_prefix(v@, id, i + 1); }
            v.set(i, (id, c));
            return;
        }
        i = i + 1;
    }
    proof { assert(v@.take(i as int) =~= v@); }
    v.push((id, c));
}

impl GameState {
    /// Queue a deferred entry: the object waits for its copy choice, and the
    /// controller it was to enter under waits with it.
    fn defer_entry(&mut self, id: ObjectId, under: Option<PlayerId>)
        ensures
            final(self).pending_entry_choices@ == (if old(self).pending_entry_choices@.contains(id) {
                old(self).pending_entry_choices@
            } else {
                old(self).pending_entry_choices@.push(id)
            }),
            final(self).pending_entry_controllers@ == (match under {
                Some(c) => controllers_put(old(self).pending_entry_controllers@, id, c),
                None => old(self).pending_entry_controllers@,
            }),
            *final(self) == (GameState {
                pending_entry_choices: final(self).pending_entry_choices,
                pending_entry_controllers: final(self).pending_entry_controllers,
                ..*old(self)
            }),
    {
        if !crate::util::contains_id(&self.pending_entry_choices, id) {
            self.pending_entry_choices.push(id);
        }
        match under {
            Some(c) => put_controller(&mut self.pending_entry_controllers, id, c),
            None => {},
        }
    }

    /// A permanent leaving the battlefield takes its until-end-of-turn,
    /// control and set-P/T effects with it (CR 400.7) and leaves combat
    /// (CR 506.4c).
    fn end_effects_on(&mut self, id: ObjectId)
        ensures
            final(self).until_end_of_turn@ == drop_eot(old(self).until_end_of_turn@, id),
            final(self).control_effects@ == drop_control(old(self).control_effects@, id),
            final(self).set_pt_effects@ == drop_set_pt(old(self).set_pt_effects@, id),
            match old(self).combat {
                Some(c) => final(self).combat matches Some(c2) && crate::objects::combat_without(c, c2, id),
                None => final(self).combat is None,
            },
            *final(self) == (GameState {
                until_end_of_turn: final(self).until_end_of_turn,
                control_effects: final(self).control_effects,
                set_pt_effects: final(self).set_pt_effects,
                combat: final(self).combat,
                ..*old(self)
            }),
    {
        self.remove_from_combat(id);
        remove_eot_on(&mut self.until_end_of_turn, id);
        remove_control_on(&mut self.control_effects, id);
        remove_set_pt_on(&mut self.set_pt_effects, id);
    }

    /// Keep the ordered zones in step with a move: leaving a library leaves
    /// its order; leaving a graveyard leaves its pile; arriving in a
    /// graveyard goes on top of the pile (CR 404.2).
    fn update_orders(&mut self, id: ObjectId, from: Option<Zone>, to: Zone, owner: PlayerId)
        requires
            (owner.0 as int) < old(self).players@.len(),
        ensures
            final(self).players@.len() == old(self).players@.len(),
            forall|p: int| 0 <= p < old(self).players@.len() && p != owner.0 ==> final(self).players@[p] == old(self).players@[p],
            ({
                let q = old(self).players@[owner.0 as int];
                let r = final(self).players@[owner.0 as int];
                &&& r.library_order@ == (if from == Some(Zone::Library) { drop_id(q.library_order@, id) } else { q.library_order@ })
                &&& r.graveyard_order@ == (if to == Zone::Graveyard && from != Some(Zone::Graveyard) {
                        drop_id(q.graveyard_order@, id).push(id)
                    } else if from == Some(Zone::Graveyard) && to != Zone::Graveyard {
                        drop_id(q.graveyard_order@, id)
                    } else {
                        q.graveyard_order@
                    })
                &&& r == (crate::state::PlayerState { library_order: r.library_order, graveyard_order: r.graveyard_order, ..q })
            }),
            *final(self) == (GameState { players: final(self).players, ..*old(self) }),
    {
        let p = owner.0 as usize;
        if from == Some(Zone::Library) {
            remove_id(&mut self.players[p].library_order, id);
        }
        if from == Some(Zone::Graveyard) && to != Zone::Graveyard {
            remove_id(&mut self.players[p].graveyard_order, id);
        }
        if to == Zone::Graveyard && from != Some(Zone::Graveyard) {
            remove_id(&mut self.players[p].graveyard_order, id);
            self.players[p].graveyard_order.push(id);
        }
    }
}

/// The log line a copy writes.
pub open spec fn copy_line(old_name: Seq<char>, name: Seq<char>, pt: (Option<i32>, Option<i32>)) -> Seq<char> {
    old_name + " enters as a copy of "@ + name + (match pt {
        (Some(p), Some(t)) => " ("@ + spec_signed_decimal(p as int) + "/"@ + spec_signed_decimal(t as int) + ")"@,
        _ => Seq::empty(),
    })
}

/// What becoming a copy of `src` (in state `st`) makes of an object
/// (CR 706.2): the copiable values, and the card it was printed as kept
/// aside while it is a copy.
pub open spec fn copied_object(st: GameState, src: ObjectId, reg: CardRegistry, o: GameObject, n: GameObject) -> bool {
    let s = st.spec_obj(src).unwrap();
    let pt = st.spec_printed_pt(src, &reg);
    &&& n.card_id == s.card_id
    &&& n.copy_grantor == (if o.card_id != s.card_id { Some(o.card_id) } else { o.copy_grantor })
    &&& n.name@ == st.spec_name(src, &reg)
    &&& n.power == pt.0 && n.toughness == pt.1
    &&& n.colors@ == st.spec_printed_colors(src, &reg)
    &&& n.card_types@ == st.spec_printed_card_types(src, &reg)
    &&& views(n.subtypes@) == st.spec_printed_subtypes(src, &reg)
    &&& n.keywords@ == st.spec_printed_keywords(src, &reg)
    &&& n.is_legendary == st.spec_is_legendary(src, &reg)
    &&& n.is_transformed == s.is_transformed
    &&& n.instance_continuous_effects is None
    &&& (match st.spec_face(src, &reg) {
            Some(d) => n.instance_oracle_text matches Some(t) && t@ == d.oracle_text@,
            None => n.instance_oracle_text is None,
        })
    &&& n == (GameObject {
            card_id: n.card_id, copy_grantor: n.copy_grantor, name: n.name, power: n.power, toughness: n.toughness,
            colors: n.colors, card_types: n.card_types, subtypes: n.subtypes, keywords: n.keywords,
            is_legendary: n.is_legendary, is_transformed: n.is_transformed,
            instance_continuous_effects: n.instance_continuous_effects, instance_oracle_text: n.instance_oracle_text,
            ..o
        })
}

/// The text a counter kind is logged as.
pub open spec fn counter_name(ct: CounterType) -> Seq<char> {
    match ct {
        CounterType::PlusOnePlusOne => "+1/+1"@,
        CounterType::MinusOneMinusOne => "-1/-1"@,
        CounterType::Loyalty => "loyalty"@,
        CounterType::Charge => "charge"@,
        CounterType::Slime => "slime"@,
    }
}

fn counter_text(ct: CounterType) -> (s: &'static str)
    ensures
        s@ == counter_name(ct),
{
    match ct {
        CounterType::PlusOnePlusOne => "+1/+1",
        CounterType::MinusOneMinusOne => "-1/-1",
        CounterType::Loyalty => "loyalty",
        CounterType::Charge => "charge",
        CounterType::Slime => "slime",
    }
}

/// "N kind counter(s)".
pub open spec fn counters_phrase(e: (CounterType, u32)) -> Seq<char> {
    spec_decimal(e.1 as nat) + " "@ + counter_name(e.0) + " counter"@ + (if e.1 == 1 { Seq::empty() } else { "s"@ })
}

/// Every entry's phrase, joined with ", ".
pub open spec fn counters_list(es: Seq<(CounterType, u32)>) -> Seq<char>
    decreases es.len(),
{
    if es.len() == 0 {
        Seq::empty()
    } else if es.len() == 1 {
        counters_phrase(es[0])
    } else {
        counters_list(es.drop_last()) + ", "@ + counters_phrase(es.last())
    }
}

/// The counter entries after each (kind, n) with n > 0 is added in turn.
pub open spec fn add_all(c: Seq<(CounterType, u32)>, es: Seq<(CounterType, u32)>) -> Seq<(CounterType, u32)>
    decreases es.len(),
{
    if es.len() == 0 {
        c
    } else {
        let prior = add_all(c, es.drop_last());
        if es.last().1 > 0 { spec_add_counters(prior, es.last().0, es.last().1) } else { prior }
    }
}

/// Adding each entry in turn never overflows a count.
pub open spec fn add_all_fits(c: Seq<(CounterType, u32)>, es: Seq<(CounterType, u32)>) -> bool
    decreases es.len(),
{
    if es.len() == 0 {
        true
    } else {
        add_all_fits(c, es.drop_last()) && spec_counter(add_all(c, es.drop_last()), es.last().0) + es.last().1 <= u32::MAX
    }
}

fn copy_line_text(old_name: String, name: &String, power: Option<i32>, toughness: Option<i32>) -> (line: String)
    ensures
        line@ == copy_line(old_name@, name@, (power, toughness)),
{
    proof {
        reveal_strlit(" enters as a copy of ");
        reveal_strlit(" (");
        reveal_strlit("/");
        reveal_strlit(")");
    }
    let ghost on = old_name@;
    let mut line = old_name;
    line.append(" enters as a copy of ");
    line.append(name.as_str());
    match (power, toughness) {
        (Some(p), Some(t)) => {
            line.append(" (");
            let ps = signed_decimal(p as i64);
            line.append(ps.as_str());
            line.append("/");
            let ts = signed_decimal(t as i64);
            line.append(ts.as_str());
            line.append(")");
            assert(line@ =~= copy_line(on, name@, (power, toughness)));
        },
        _ => {
            assert(line@ =~= copy_line(on, name@, (power, toughness)));
        },
    }
    line
}

#[verifier::spinoff_prover]
fn write_copy(o: &mut GameObject, source_card: CardId, name: String, power: Option<i32>, toughness: Option<i32>,
    colors: Vec<Color>, card_types: Vec<CardType>, subtypes: Vec<String>, keywords: Vec<Keyword>, legendary: bool,
    transformed: bool, oracle_text: Option<String>)
    ensures
        final(o).card_id == source_card,
        final(o).copy_grantor == (if old(o).card_id != source_card { Some(old(o).card_id) } else { old(o).copy_grantor }),
        final(o).name == name && final(o).power == power && final(o).toughness == toughness,
        final(o).colors == colors && final(o).card_types == card_types && final(o).subtypes == subtypes,
        final(o).keywords == keywords && final(o).is_legendary == legendary && final(o).is_transformed == transformed,
        final(o).instance_continuous_effects is None && final(o).instance_oracle_text == oracle_text,
        *final(o) == (GameObject {
            card_id: final(o).card_id, copy_grantor: final(o).copy_grantor, name: final(o).name, power: final(o).power,
            toughness: final(o).toughness, colors: final(o).colors, card_types: final(o).card_types,
            subtypes: final(o).subtypes, keywords: final(o).keywords, is_legendary: final(o).is_legendary,
            is_transformed: final(o).is_transformed, instance_continuous_effects: final(o).instance_continuous_effects,
            instance_oracle_text: final(o).instance_oracle_text, ..*old(o)
        }),
{
    if o.card_id != source_card {
        o.copy_grantor = Some(o.card_id);
        o.card_id = source_card;
    }
    o.name = name;
    o.power = power;
    o.toughness = toughness;
    o.colors = colors;
    o.card_types = card_types;
    o.subtypes = subtypes;
    o.keywords = keywords;
    o.is_legendary = legendary;
    o.is_transformed = transformed;
    o.instance_continuous_effects = None;
    o.instance_oracle_text = oracle_text;
}

impl GameState {
    /// Give `dest` the copiable values of the permanent `source` (CR 706.2)
    /// and log it.
    #[verifier::spinoff_prover]
    pub(crate) fn become_copy_of(&mut self, dest: ObjectId, source: ObjectId, registry: &CardRegistry)
        ensures
            old(self).spec_obj(source) is None ==> *final(self) == *old(self),
            old(self).spec_obj(source) is Some ==> {
                &&& match old(self).spec_index(dest) {
                    Some(i) => final(self).objects@ == old(self).objects@.update(i, final(self).objects@[i])
                        && copied_object(*old(self), source, *registry, old(self).objects@[i], final(self).objects@[i]),
                    None => final(self).objects == old(self).objects,
                }
                &&& logged(old(self).game_log@, final(self).game_log@, LogLevel::Event, copy_line(
                    match old(self).spec_obj(dest) { Some(o) => o.name@, None => Seq::empty() },
                    old(self).spec_name(source, registry), old(self).spec_printed_pt(source, registry)))
                &&& *final(self) == (GameState { objects: final(self).objects, game_log: final(self).game_log, ..*old(self) })
            },
    {
        let (source_card, transformed) = match self.get_object(source) {
            Some(s) => (s.card_id, s.is_transformed),
            None => return,
        };
        let legendary = self.is_legendary(source, registry);
        let name = self.name_of(source, registry);
        let (power, toughness) = self.printed_pt_of(source, registry);
        let keywords = self.printed_keywords_of(source, registry);
        let card_types = self.printed_card_types_of(source, registry);
        let subtypes = self.printed_subtypes_of(source, registry);
        let colors = self.printed_colors_of(source, registry);
        let oracle_text: Option<String> = match self.face_data(source, registry) {
            Some(d) => Some(d.oracle_text.clone()),
            None => None,
        };
        let old_name = match self.get_object(dest) {
            Some(o) => o.name.clone(),
            None => String::new(),
        };
        let ghost before = *self;
        match self.find_index(dest) {
            Some(i) => {
                write_copy(&mut self.objects[i], source_card, name.clone(), power, toughness, colors, card_types,
                    subtypes, keywords, legendary, transformed, oracle_text);
                proof {
                    assert(self.objects@ =~= before.objects@.update(i as int, self.objects@[i as int]));
                }
            },
            None => {},
        }
        let line = copy_line_text(old_name, &name, power, toughness);
        self.log(LogLevel::Event, line);
    }
}

/// A log grew by the given lines, in order.
pub open spec fn log_grew(before: Seq<crate::state::LogEntry>, after: Seq<crate::state::LogEntry>,
    lines: Seq<(LogLevel, Seq<char>)>) -> bool {
    &&& after.len() == before.len() + lines.len()
    &&& after.take(before.len() as int) == before
    &&& forall|k: int| 0 <= k < lines.len() ==> (#[trigger] after[before.len() + k]).level == lines[k].0
        && after[before.len() + k].message@ == lines[k].1
}

/// The log lines of an entry: its counters, then that it enters tapped.
pub open spec fn entering_lines(name: Seq<char>, e: EnteringView) -> Seq<(LogLevel, Seq<char>)> {
    (if e.counters.len() > 0 {
        seq![(LogLevel::Info, name + " enters with "@ + counters_list(e.counters))]
    } else {
        Seq::empty()
    }) + (if e.tapped { seq![(LogLevel::Info, name + " enters tapped"@)] } else { Seq::empty() })
}

fn counters_text(es: &Vec<(CounterType, u32)>) -> (s: String)
    ensures
        s@ == counters_list(es@),
{
    proof {
        reveal_strlit(", ");
        reveal_strlit(" ");
        reveal_strlit(" counter");
        reveal_strlit("s");
    }
    let mut s = String::new();
    let mut i: usize = 0;
    while i < es.len()
        invariant
            i <= es@.len(),
            s@ == counters_list(es@.take(i as int)),
        decreases es@.len() - i,
    {
        proof { assert(es@.take(i + 1).drop_last() =~= es@.take(i as int)); }
        let ghost before = s@;
        if i > 0 {
            s.append(", ");
        }
        let (ct, n) = es[i];
        let num = decimal(n as u64);
        s.append(num.as_str());
        s.append(" ");
        s.append(counter_text(ct));
        s.append(" counter");
        if n != 1 {
            s.append("s");
        }
        i = i + 1;
        proof {
            let p = counters_phrase(es@[i - 1]);
            if i == 1 {
                assert(s@ =~= p);
                assert(es@.take(1) =~= seq![es@[0]]);
            } else {
                assert(s@ =~= before + ", "@ + p);
            }
        }
    }
    proof { assert(es@.take(i as int) =~= es@); }
    s
}

/// The log lines an entry writes, put together from the two it may log.
proof fn lemma_entering_log(b: Seq<crate::state::LogEntry>, l3: Seq<crate::state::LogEntry>,
    a: Seq<crate::state::LogEntry>, name: Seq<char>, e: EnteringView)
    requires
        e.counters.len() > 0 ==> logged(b, l3, LogLevel::Info, name + " enters with "@ + counters_list(e.counters)),
        e.counters.len() == 0 ==> l3 == b,
        e.tapped ==> logged(l3, a, LogLevel::Info, name + " enters tapped"@),
        !e.tapped ==> a == l3,
    ensures
        log_grew(b, a, entering_lines(name, e)),
{
    let lines = entering_lines(name, e);
    if e.counters.len() > 0 {
        assert(l3 =~= b.push(l3.last()));
    }
    if e.tapped {
        assert(a =~= l3.push(a.last()));
    }
    assert(a.len() == b.len() + lines.len());
    assert(a.take(b.len() as int) =~= b);
    assert forall|k: int| 0 <= k < lines.len() implies (#[trigger] a[b.len() + k]).level == lines[k].0
        && a[b.len() + k].message@ == lines[k].1 by {
        if e.counters.len() > 0 {
            if k == 0 {
                assert(a[b.len() + k] == l3.last());
            } else {
                assert(a[b.len() + k] == a.last());
            }
        } else {
            assert(a[b.len() + k] == a.last());
        }
    }
}

impl GameState {
    /// Put an entry's counters on the permanent at position `i0`.
    fn add_entry_counters(&mut self, id: ObjectId, counters: &Vec<(CounterType, u32)>, Ghost(i0): Ghost<int>)
        requires
            old(self).spec_index(id) == Some(i0),
            0 <= i0 < old(self).objects@.len(),
            old(self).objects@[i0].zone == Zone::Battlefield,
            add_all_fits(old(self).objects@[i0].counters@, counters@),
        ensures
            final(self).objects@.len() == old(self).objects@.len(),
            final(self).spec_index(id) == Some(i0),
            forall|j: int| 0 <= j < old(self).objects@.len() && j != i0 ==> final(self).objects@[j] == old(self).objects@[j],
            final(self).objects@[i0] == (GameObject { counters: final(self).objects@[i0].counters, ..old(self).objects@[i0] }),
            final(self).objects@[i0].counters@ == add_all(old(self).objects@[i0].counters@, counters@),
            *final(self) == (GameState { objects: final(self).objects, ..*old(self) }),
    {
        let ghost st1 = *self;
        let mut k: usize = 0;
        while k < counters.len()
            invariant
                k <= counters@.len(),
                self.objects@.len() == st1.objects@.len(),
                self.spec_index(id) == Some(i0),
                0 <= i0 < st1.objects@.len(),
                self.objects@[i0].zone == Zone::Battlefield,
                forall|j: int| 0 <= j < st1.objects@.len() && j != i0 ==> self.objects@[j] == st1.objects@[j],
                self.objects@[i0] == (GameObject { counters: self.objects@[i0].counters, ..st1.objects@[i0] }),
                self.objects@[i0].counters@ == add_all(st1.objects@[i0].counters@, counters@.take(k as int)),
                add_all_fits(st1.objects@[i0].counters@, counters@),
                *self == (GameState { objects: self.objects, ..st1 }),
            decreases counters@.len() - k,
        {
            proof {
                assert(counters@.take(k + 1).drop_last() =~= counters@.take(k as int));
                lemma_fits_prefix(st1.objects@[i0].counters@, counters@, k as int + 1);
            }
            let (ct, n) = counters[k];
            let ghost before = *self;
            if n > 0 {
                self.add_counters(id, ct, n);
            }
            proof {
                assert forall|j: int| 0 <= j < before.objects@.len() implies #[trigger] before.objects@[j].id == self.objects@[j].id by {
                    if j != i0 {
                        assert(before.objects@[j] == self.objects@[j]);
                    }
                }
                crate::state::lemma_find_same_ids(before.objects@, self.objects@, id, 0);
            }
            k = k + 1;
        }
        proof { assert(counters@.take(k as int) =~= counters@); }
    }

    /// The copy half of an entry: the permanent at `i0` becomes a copy.
    #[verifier::spinoff_prover]
    fn copy_on_entry(&mut self, id: ObjectId, src: ObjectId, registry: &CardRegistry, Ghost(i0): Ghost<int>)
        requires
            old(self).spec_index(id) == Some(i0),
            0 <= i0 < old(self).objects@.len(),
            old(self).objects@[i0].zone == Zone::Battlefield,
            old(self).objects@[i0].id == id,
        ensures
            final(self).objects@.len() == old(self).objects@.len(),
            final(self).spec_index(id) == Some(i0),
            forall|j: int| 0 <= j < old(self).objects@.len() && j != i0 ==> final(self).objects@[j] == old(self).objects@[j],
            final(self).objects@[i0].zone == Zone::Battlefield,
            final(self).objects@[i0].counters == old(self).objects@[i0].counters,
            final(self).objects@[i0].tapped == old(self).objects@[i0].tapped,
            final(self).objects@[i0].id == id,
            *final(self) == (GameState { objects: final(self).objects, game_log: final(self).game_log, ..*old(self) }),
            old(self).spec_obj(src) is None ==> *final(self) == *old(self),
            old(self).spec_obj(src) is Some ==> copied_object(*old(self), src, *registry, old(self).objects@[i0], final(self).objects@[i0])
                && logged(old(self).game_log@, final(self).game_log@, LogLevel::Event, copy_line(
                    old(self).objects@[i0].name@, old(self).spec_name(src, registry), old(self).spec_printed_pt(src, registry))),
    {
        let ghost st0 = *self;
        proof { crate::state::lemma_find_from(st0.objects@, id, 0); }
        self.become_copy_of(id, src, registry);
        proof {
            assert forall|j: int| 0 <= j < st0.objects@.len() implies #[trigger] st0.objects@[j].id == self.objects@[j].id by {
                if j != i0 {
                    assert(st0.objects@[j] == self.objects@[j]);
                }
            }
            crate::state::lemma_find_same_ids(st0.objects@, self.objects@, id, 0);
        }
    }

    /// Log what an entry did: its counters, and that it entered tapped.
    fn log_entry(&mut self, name: &String, entering: &EnteringPermanent)
        ensures
            log_grew(old(self).game_log@, final(self).game_log@, entering_lines(name@, entering@)),
            *final(self) == (GameState { game_log: final(self).game_log, ..*old(self) }),
    {
        let ghost b = self.game_log@;
        if entering.counters.len() > 0 {
            proof { reveal_strlit(" enters with "); }
            let mut line = name.clone();
            line.append(" enters with ");
            let what = counters_text(&entering.counters);
            line.append(what.as_str());
            self.log(LogLevel::Info, line);
        }
        let ghost l3 = self.game_log@;
        if entering.tapped {
            proof { reveal_strlit(" enters tapped"); }
            let mut line = name.clone();
            line.append(" enters tapped");
            self.log(LogLevel::Info, line);
        }
        proof { lemma_entering_log(b, l3, self.game_log@, name@, entering@); }
    }

    /// Apply a planned entry to a permanent now on the battlefield: become
    /// the copy, gain the counters, arrive tapped (CR 614.1c-d).
    #[verifier::spinoff_prover]
    #[verifier::rlimit(100)]
    /// The counters and tapping of an entry, logged.
    fn finish_entry(&mut self, id: ObjectId, entering: &EnteringPermanent, Ghost(i0): Ghost<int>)
        requires
            old(self).spec_index(id) == Some(i0),
            0 <= i0 < old(self).objects@.len(),
            old(self).objects@[i0].zone == Zone::Battlefield,
            old(self).objects@[i0].id == id,
            add_all_fits(old(self).objects@[i0].counters@, entering.counters@),
        ensures
            final(self).objects@.len() == old(self).objects@.len(),
            final(self).spec_index(id) == Some(i0),
            forall|j: int| 0 <= j < old(self).objects@.len() && j != i0 ==> final(self).objects@[j] == old(self).objects@[j],
            final(self).objects@[i0] == (GameObject {
                tapped: old(self).objects@[i0].tapped || entering.tapped,
                counters: final(self).objects@[i0].counters,
                ..old(self).objects@[i0]
            }),
            final(self).objects@[i0].counters@ == add_all(old(self).objects@[i0].counters@, entering.counters@),
            log_grew(old(self).game_log@, final(self).game_log@,
                entering_lines(crate::objects::spec_obj_name(old(self), id), entering@)),
            *final(self) == (GameState { objects: final(self).objects, game_log: final(self).game_log, ..*old(self) }),
    {
        let ghost st1 = *self;
        self.add_entry_counters(id, &entering.counters, Ghost(i0));
        let ghost st2 = *self;
        if entering.tapped {
            self.tap_in_place(id, Ghost(i0));
        }
        let ghost st3 = *self;
        let name = self.obj_name(id);
        self.log_entry(&name, entering);
        proof {
            let o = st1.objects@[i0];
            let n2 = st2.objects@[i0];
            let n = self.objects@[i0];
            assert(n2 == (GameObject { counters: n2.counters, ..o }));
            assert(n == (GameObject { tapped: o.tapped || entering.tapped, counters: n.counters, ..o }));
            crate::state::lemma_find_from(st1.objects@, id, 0);
            assert(st3.spec_obj(id) == Some(st3.objects@[i0]));
            assert(st1.spec_obj(id) == Some(o));
            assert(crate::objects::spec_obj_name(&st3, id) == crate::objects::spec_obj_name(&st1, id));
        }
    }

    /// Apply an entry to a permanent that is on the battlefield: the copy
    /// it enters as, if any, then its counters and tapping, logged.
    fn apply_entering(&mut self, entering: &EnteringPermanent, registry: &CardRegistry)
        requires
            match old(self).spec_obj(entering.object) {
                Some(o) => add_all_fits(o.counters@, entering.counters@),
                None => true,
            },
            old(self).in_zone(entering.object, Zone::Battlefield),
        ensures
            final(self).objects@.len() == old(self).objects@.len(),
            forall|j: int| 0 <= j < old(self).objects@.len() && Some(j) != old(self).spec_index(entering.object)
                ==> final(self).objects@[j] == old(self).objects@[j],
            final(self).spec_index(entering.object) == old(self).spec_index(entering.object),
            final(self).in_zone(entering.object, Zone::Battlefield),
            entering.copy_of is None ==> {
                let i = old(self).spec_index(entering.object).unwrap();
                let o = old(self).objects@[i];
                let n = final(self).objects@[i];
                &&& n == (GameObject { tapped: o.tapped || entering.tapped, counters: n.counters, ..o })
                &&& n.counters@ == add_all(o.counters@, entering.counters@)
                &&& log_grew(old(self).game_log@, final(self).game_log@,
                    entering_lines(crate::objects::spec_obj_name(old(self), entering.object), entering@))
            },
            entering.copy_of is Some ==> copy_entered(*old(self), *final(self), old(self).spec_index(entering.object).unwrap(),
                entering.object, entering@, *registry),
            *final(self) == (GameState { objects: final(self).objects, game_log: final(self).game_log, ..*old(self) }),
    {
        let id = entering.object;
        let ghost st0 = *self;
        let ghost i0 = self.spec_index(id).unwrap();
        proof { crate::state::lemma_find_from(self.objects@, id, 0); }
        match entering.copy_of {
            Some(src) => self.copy_on_entry(id, src, registry, Ghost(i0)),
            None => {},
        }
        let ghost st1 = *self;
        proof {
            crate::state::lemma_find_from(st1.objects@, id, 0);
        }
        self.finish_entry(id, entering, Ghost(i0));
        proof {
            if entering.copy_of is Some {
                lemma_copy_entry(st0, st1, *self, i0, id, entering@, *registry);
            }
        }
    }

    fn tap_in_place(&mut self, id: ObjectId, Ghost(i0): Ghost<int>)
        requires
            old(self).spec_index(id) == Some(i0),
            0 <= i0 < old(self).objects@.len(),
        ensures
            final(self).objects@ == old(self).objects@.update(i0, GameObject { tapped: true, ..old(self).objects@[i0] }),
            final(self).spec_index(id) == Some(i0),
            *final(self) == (GameState { objects: final(self).objects, ..*old(self) }),
    {
        let ghost st0 = *self;
        self.arrives_tapped(id);
        proof {
            assert forall|j: int| 0 <= j < st0.objects@.len() implies #[trigger] st0.objects@[j].id == self.objects@[j].id by {}
            crate::state::lemma_find_same_ids(st0.objects@, self.objects@, id, 0);
        }
    }
}

proof fn lemma_fits_prefix(c: Seq<(CounterType, u32)>, es: Seq<(CounterType, u32)>, n: int)
    requires
        0 <= n <= es.len(),
        add_all_fits(c, es),
    ensures
        add_all_fits(c, es.take(n)),
    decreases es.len() - n,
{
    if n < es.len() {
        assert(es.drop_last().take(n) =~= es.take(n));
        lemma_fits_prefix(c, es.drop_last(), n);
    } else {
        assert(es.take(n) =~= es);
    }
}

/// The log line a permanent leaving the battlefield writes.
pub open spec fn leave_line(name: Seq<char>, to: Zone) -> Seq<char> {
    name + (if to == Zone::Graveyard { " died"@ } else if to == Zone::Exile { " was exiled"@ } else { " left the battlefield"@ })
}

/// The events a zone change announces before any entering: the move, the
/// departure from the battlefield, and a mill (CR 701.13a).
pub open spec fn move_events(id: ObjectId, from: Zone, to: Zone, last_controller: PlayerId, owner: PlayerId,
    was_creature: bool) -> Seq<GameEvent> {
    seq![GameEvent::ObjectMoved { object: id, from, to }]
        + (if from == Zone::Battlefield && to != Zone::Battlefield {
            seq![GameEvent::LeftBattlefield { object: id, to, last_controller }]
        } else {
            Seq::empty()
        })
        + (if from == Zone::Library && to == Zone::Graveyard && was_creature {
            seq![GameEvent::CreatureCardMilled { object: id, milled_player: owner }]
        } else {
            Seq::empty()
        })
}

/// Everything a zone change leaves alone.
#[verifier::opaque]
pub open spec fn zone_frame(a: GameState, b: GameState) -> bool {
    &&& a.next_object_id == b.next_object_id && a.rng_state == b.rng_state && a.turn_number == b.turn_number
    &&& a.active_player == b.active_player && a.priority_player == b.priority_player && a.step == b.step
    &&& a.stack == b.stack && a.end_of_combat_exiles == b.end_of_combat_exiles && a.awaiting_action == b.awaiting_action
    &&& a.combat_damage_step_pending == b.combat_damage_step_pending && a.result == b.result
    &&& a.consecutive_passes == b.consecutive_passes && a.is_first_turn == b.is_first_turn
    &&& a.creature_died_this_turn == b.creature_died_this_turn && a.day_night == b.day_night
    &&& a.pending_ability_effect == b.pending_ability_effect && a.pending_spell_cast == b.pending_spell_cast
    &&& a.pending_triggers == b.pending_triggers && a.pending_entry_choices == b.pending_entry_choices
    &&& a.pending_entry_controllers == b.pending_entry_controllers && a.next_effect_timestamp == b.next_effect_timestamp
    &&& a.book == b.book
}

proof fn lemma_frame_trans(a: GameState, b: GameState, c: GameState)
    requires
        zone_frame(a, b),
        zone_frame(b, c),
    ensures
        zone_frame(a, c),
{
    reveal(zone_frame);
}

proof fn lemma_frame_objects(a: GameState, b: GameState)
    requires
        b == (GameState { objects: b.objects, ..a }),
    ensures
        zone_frame(a, b),
{
    reveal(zone_frame);
}

proof fn lemma_frame_log(a: GameState, b: GameState)
    requires
        b == (GameState { game_log: b.game_log, ..a }),
    ensures
        zone_frame(a, b),
{
    reveal(zone_frame);
}

proof fn lemma_frame_players(a: GameState, b: GameState)
    requires
        b == (GameState { players: b.players, ..a }),
    ensures
        zone_frame(a, b),
{
    reveal(zone_frame);
}

proof fn lemma_frame_resolving(a: GameState, b: GameState)
    requires
        b == (GameState { resolving_spell: b.resolving_spell, ..a }),
    ensures
        zone_frame(a, b),
{
    reveal(zone_frame);
}

proof fn lemma_frame_cleanup(a: GameState, b: GameState)
    requires
        b == (GameState {
            until_end_of_turn: b.until_end_of_turn,
            control_effects: b.control_effects,
            set_pt_effects: b.set_pt_effects,
            combat: b.combat,
            ..a
        }),
    ensures
        zone_frame(a, b),
{
    reveal(zone_frame);
}

proof fn lemma_frame_events(a: GameState, b: GameState)
    requires
        b == (GameState { events: b.events, ..a }),
    ensures
        zone_frame(a, b),
{
    reveal(zone_frame);
}

fn leave_text(name: &String, to: Zone) -> (s: String)
    ensures
        s@ == leave_line(name@, to),
{
    proof {
        reveal_strlit(" died");
        reveal_strlit(" was exiled");
        reveal_strlit(" left the battlefield");
    }
    let mut s = name.clone();
    if to == Zone::Graveyard {
        s.append(" died");
    } else if to == Zone::Exile {
        s.append(" was exiled");
    } else {
        s.append(" left the battlefield");
    }
    s
}

impl GameState {
    fn move_fields_at(&mut self, i: usize, to: Zone, printed: Option<(String, Option<i32>, Option<i32>)>,
        Ghost(pr): Ghost<Option<CardData>>)
        requires
            i < old(self).objects@.len(),
            match pr {
                Some(d) => printed matches Some(p) && p.0@ == d.name@ && p.1 == d.power && p.2 == d.toughness,
                None => printed is None,
            },
        ensures
            final(self).objects@ == old(self).objects@.update(i as int, final(self).objects@[i as int]),
            moved_object(old(self).objects@[i as int], final(self).objects@[i as int], to, pr),
            *final(self) == (GameState { objects: final(self).objects, ..*old(self) }),
    {
        move_object_fields(&mut self.objects[i], to, printed, Ghost(pr));
    }

    fn set_controller_at(&mut self, i: usize, c: PlayerId)
        requires
            i < old(self).objects@.len(),
        ensures
            final(self).objects@ == old(self).objects@.update(i as int, GameObject { controller: c, ..old(self).objects@[i as int] }),
            *final(self) == (GameState { objects: final(self).objects, ..*old(self) }),
    {
        self.objects[i].controller = c;
    }

    /// The first half of a zone change: the controller it moves under, the
    /// log line of a permanent leaving, the ordered zones, and a resolving
    /// spell that leaves the stack.
    #[verifier::spinoff_prover]
    fn change_zone_pre(&mut self, i: usize, id: ObjectId, to: Zone, c: PlayerId)
        requires
            i < old(self).objects@.len(),
            old(self).objects@[i as int].id == id,
            (old(self).objects@[i as int].owner.0 as int) < old(self).players@.len(),
        ensures
            zone_pre(*old(self), *final(self), i as int, id, to, c),
    {
        let ghost st = *self;
        let from = self.objects[i].zone;
        let owner = self.objects[i].owner;
        let leaving = from == Zone::Battlefield && to != Zone::Battlefield;
        self.set_controller_at(i, c);
        let ghost s1 = *self;
        proof { lemma_frame_objects(st, s1); }
        if leaving && self.objects[i].power.is_some() {
            let line = leave_text(&self.objects[i].name, to);
            self.log(LogLevel::Event, line);
        }
        let ghost s2 = *self;
        proof { if leaving && st.objects@[i as int].power is Some { lemma_frame_log(s1, s2); } else { lemma_frame_objects(s1, s2); } lemma_frame_trans(st, s1, s2); }
        self.update_orders(id, Some(from), to, owner);
        let ghost s3 = *self;
        proof { lemma_frame_players(s2, s3); lemma_frame_trans(st, s2, s3); }
        if self.resolving_spell == Some(id) && to != Zone::Stack {
            self.resolving_spell = None;
        }
        proof { lemma_frame_resolving(s3, *self); lemma_frame_trans(st, s3, *self); }
    }

    /// The second half of a zone change: the object becomes what the move
    /// makes of it, its effects end if it left the battlefield, and the move
    /// is announced.
    #[verifier::spinoff_prover]
    fn change_zone_post(&mut self, i: usize, id: ObjectId, to: Zone, c: PlayerId, was_creature: bool,
        printed: Option<(String, Option<i32>, Option<i32>)>, Ghost(pr): Ghost<Option<CardData>>)
        requires
            i < old(self).objects@.len(),
            old(self).objects@[i as int].id == id,
            match pr {
                Some(d) => printed matches Some(p) && p.0@ == d.name@ && p.1 == d.power && p.2 == d.toughness,
                None => printed is None,
            },
        ensures
            zone_post(*old(self), *final(self), i as int, id, to, c, was_creature, pr),
    {
        let ghost st = *self;
        let from = self.objects[i].zone;
        let owner = self.objects[i].owner;
        let leaving = from == Zone::Battlefield && to != Zone::Battlefield;
        self.move_fields_at(i, to, printed, Ghost(pr));
        let ghost s5 = *self;
        proof { lemma_frame_objects(st, s5); }
        if leaving {
            self.end_effects_on(id);
        }
        let ghost s6 = *self;
        proof { if leaving { lemma_frame_cleanup(s5, s6); } else { lemma_frame_objects(s5, s6); } lemma_frame_trans(st, s5, s6); }
        self.events.push(GameEvent::ObjectMoved { object: id, from, to });
        if leaving {
            self.events.push(GameEvent::LeftBattlefield { object: id, to, last_controller: c });
        }
        if from == Zone::Library && to == Zone::Graveyard && was_creature {
            self.events.push(GameEvent::CreatureCardMilled { object: id, milled_player: owner });
        }
        proof {
            lemma_frame_events(s6, *self);
            lemma_frame_trans(st, s6, *self);
            assert(self.events@ =~= st.events@ + move_events(id, from, to, c, owner, was_creature));
        }
    }
}

/// The first half of a zone change, as a relation.
pub open spec fn zone_pre(st: GameState, mid: GameState, i: int, id: ObjectId, to: Zone, c: PlayerId) -> bool {
    let o = st.objects@[i];
    let from = o.zone;
    let leaving = from == Zone::Battlefield && to != Zone::Battlefield;
    let q = st.players@[o.owner.0 as int];
    let r = mid.players@[o.owner.0 as int];
    &&& mid.objects@ == st.objects@.update(i, GameObject { controller: c, ..o })
    &&& mid.players@.len() == st.players@.len()
    &&& forall|p: int| 0 <= p < st.players@.len() && p != o.owner.0 ==> mid.players@[p] == st.players@[p]
    &&& r.library_order@ == (if from == Zone::Library { drop_id(q.library_order@, id) } else { q.library_order@ })
    &&& r.graveyard_order@ == (if to == Zone::Graveyard && from != Zone::Graveyard {
            drop_id(q.graveyard_order@, id).push(id)
        } else if from == Zone::Graveyard && to != Zone::Graveyard {
            drop_id(q.graveyard_order@, id)
        } else {
            q.graveyard_order@
        })
    &&& r == (crate::state::PlayerState { library_order: r.library_order, graveyard_order: r.graveyard_order, ..q })
    &&& mid.resolving_spell == (if st.resolving_spell == Some(id) && to != Zone::Stack { None } else { st.resolving_spell })
    &&& (if leaving && o.power is Some {
            logged(st.game_log@, mid.game_log@, LogLevel::Event, leave_line(o.name@, to))
        } else {
            mid.game_log == st.game_log
        })
    &&& mid.until_end_of_turn == st.until_end_of_turn && mid.control_effects == st.control_effects
    &&& mid.set_pt_effects == st.set_pt_effects && mid.combat == st.combat && mid.events == st.events
    &&& zone_frame(st, mid)
}

/// The second half of a zone change, as a relation.
pub open spec fn zone_post(mid: GameState, fin: GameState, i: int, id: ObjectId, to: Zone, c: PlayerId,
    was_creature: bool, pr: Option<CardData>) -> bool {
    let o = mid.objects@[i];
    let from = o.zone;
    let leaving = from == Zone::Battlefield && to != Zone::Battlefield;
    &&& fin.objects@ == mid.objects@.update(i, fin.objects@[i])
    &&& moved_object(o, fin.objects@[i], to, pr)
    &&& fin.until_end_of_turn@ == (if leaving { drop_eot(mid.until_end_of_turn@, id) } else { mid.until_end_of_turn@ })
    &&& fin.control_effects@ == (if leaving { drop_control(mid.control_effects@, id) } else { mid.control_effects@ })
    &&& fin.set_pt_effects@ == (if leaving { drop_set_pt(mid.set_pt_effects@, id) } else { mid.set_pt_effects@ })
    &&& (if leaving {
            match mid.combat {
                Some(cb) => fin.combat matches Some(cb2) && crate::objects::combat_without(cb, cb2, id),
                None => fin.combat is None,
            }
        } else {
            fin.combat == mid.combat
        })
    &&& fin.events@ == mid.events@ + move_events(id, from, to, c, o.owner, was_creature)
    &&& fin.players == mid.players && fin.game_log == mid.game_log && fin.resolving_spell == mid.resolving_spell
    &&& zone_frame(mid, fin)
}


/// Whether a move of `o` to `to` enters the battlefield.
pub open spec fn is_entering(o: GameObject, to: Zone) -> bool {
    to == Zone::Battlefield && o.zone != Zone::Battlefield
}

/// How a move of the object enters the battlefield, after every
/// replacement effect (CR 614, 616.1), worked out against the state before
/// the move.
pub open spec fn move_plan(st: GameState, id: ObjectId, to: Zone, under: Option<PlayerId>, reg: CardRegistry) -> EnteringView {
    let o = st.spec_obj(id).unwrap();
    let c = match under { Some(c) => c, None => o.controller };
    sp_for_entering(st, reg, EnteringView {
        object: id,
        from: Some(o.zone),
        controller: c,
        tapped: false,
        counters: Seq::empty(),
        copy_of: None,
    })
}

/// What a move needs: an owner with a seat, room on the counters an entry
/// puts on it, and a player to own the graveyard a missing object is
/// recorded in.
pub open spec fn move_ok(st: GameState, id: ObjectId, to: Zone, under: Option<PlayerId>, reg: CardRegistry) -> bool {
    match st.spec_obj(id) {
        Some(o) => (o.owner.0 as int) < st.players@.len()
            && (is_entering(o, to) ==> add_all_fits(o.counters@, move_plan(st, id, to, under, reg).counters)),
        None => to == Zone::Graveyard ==> st.players@.len() > 0,
    }
}

/// The steps of an entry as a copy make a `copy_entered`.
proof fn lemma_copy_entry(st0: GameState, st1: GameState, fin: GameState, i0: int, id: ObjectId, e: EnteringView,
    reg: CardRegistry)
    requires
        e.copy_of is Some,
        0 <= i0 < st0.objects@.len(),
        st0.spec_index(id) == Some(i0),
        st1.objects@.len() == st0.objects@.len(),
        st1.spec_index(id) == Some(i0),
        st1.objects@[i0].counters == st0.objects@[i0].counters,
        st1.objects@[i0].tapped == st0.objects@[i0].tapped,
        st0.spec_obj(e.copy_of.unwrap()) is None ==> st1 == st0,
        st0.spec_obj(e.copy_of.unwrap()) is Some ==> copied_object(st0, e.copy_of.unwrap(), reg, st0.objects@[i0], st1.objects@[i0])
            && logged(st0.game_log@, st1.game_log@, LogLevel::Event, copy_line(
                st0.objects@[i0].name@, st0.spec_name(e.copy_of.unwrap(), &reg), st0.spec_printed_pt(e.copy_of.unwrap(), &reg))),
        fin.objects@[i0] == (GameObject {
            tapped: st1.objects@[i0].tapped || e.tapped,
            counters: fin.objects@[i0].counters,
            ..st1.objects@[i0]
        }),
        fin.objects@[i0].counters@ == add_all(st1.objects@[i0].counters@, e.counters),
        log_grew(st1.game_log@, fin.game_log@, entering_lines(crate::objects::spec_obj_name(&st1, id), e)),
    ensures
        copy_entered(st0, fin, i0, id, e, reg),
{
    let src = e.copy_of.unwrap();
    let o = st0.objects@[i0];
    let c = st1.objects@[i0];
    let n = fin.objects@[i0];
    crate::state::lemma_find_from(st1.objects@, id, 0);
    assert(st1.spec_obj(id) == Some(c));
    assert(c == (GameObject { tapped: o.tapped, counters: o.counters, ..n }));
    if st0.spec_obj(src) is Some {
        let lines = seq![(LogLevel::Event, copy_line(o.name@, st0.spec_name(src, &reg), st0.spec_printed_pt(src, &reg)))]
            + entering_lines(n.name@ + " (#"@ + spec_decimal(id.0 as nat) + ")"@, e);
        assert(crate::objects::spec_obj_name(&st1, id) == n.name@ + " (#"@ + spec_decimal(id.0 as nat) + ")"@);
        assert forall|k: int| 0 <= k < st0.game_log@.len() implies fin.game_log@[k] == st0.game_log@[k] by {
            assert(fin.game_log@[k] == fin.game_log@.take(st1.game_log@.len() as int)[k]);
            assert(st1.game_log@[k] == st1.game_log@.drop_last()[k]);
        }
        assert(fin.game_log@.take(st0.game_log@.len() as int) =~= st0.game_log@);
        assert forall|k: int| 0 <= k < lines.len() implies (#[trigger] fin.game_log@[st0.game_log@.len() + k]).level == lines[k].0
            && fin.game_log@[st0.game_log@.len() + k].message@ == lines[k].1 by {
            if k == 0 {
                assert(fin.game_log@[st0.game_log@.len() as int] == fin.game_log@.take(st1.game_log@.len() as int)[st0.game_log@.len() as int]);
            } else {
                assert(fin.game_log@[st0.game_log@.len() + k] == fin.game_log@[st1.game_log@.len() + (k - 1)]);
            }
        }
    }
}

/// An entry as a copy (CR 706.9): the permanent takes the copied one's
/// copiable values, as `copied_object` says, then is tapped and given
/// counters as the entry says; the copy and the entry are logged. With the
/// copied permanent gone, it enters as itself.
pub open spec fn copy_entered(a: GameState, b: GameState, i: int, id: ObjectId, e: EnteringView, reg: CardRegistry) -> bool {
    let src = e.copy_of.unwrap();
    let o = a.objects@[i];
    let n = b.objects@[i];
    &&& n.tapped == (o.tapped || e.tapped)
    &&& n.counters@ == add_all(o.counters@, e.counters)
    &&& if a.spec_obj(src) is Some {
        &&& copied_object(a, src, reg, o, GameObject { tapped: o.tapped, counters: o.counters, ..n })
        &&& log_grew(a.game_log@, b.game_log@,
            seq![(LogLevel::Event, copy_line(o.name@, a.spec_name(src, &reg), a.spec_printed_pt(src, &reg)))]
            + entering_lines(n.name@ + " (#"@ + spec_decimal(id.0 as nat) + ")"@, e))
    } else {
        &&& n == (GameObject { tapped: o.tapped || e.tapped, counters: n.counters, ..o })
        &&& log_grew(a.game_log@, b.game_log@, entering_lines(crate::objects::spec_obj_name(&a, id), e))
    }
}

/// An entry applied to the permanent at `i`, and announced (CR 603.6a).
pub open spec fn entry_applied(a: GameState, b: GameState, i: int, id: ObjectId, e: EnteringView, reg: CardRegistry) -> bool {
    &&& b.objects@.len() == a.objects@.len()
    &&& forall|j: int| 0 <= j < a.objects@.len() && j != i ==> b.objects@[j] == a.objects@[j]
    &&& b.objects@[i].zone == Zone::Battlefield && b.objects@[i].id == id
    &&& e.copy_of is None ==> {
        let o = a.objects@[i];
        let n = b.objects@[i];
        &&& n == (GameObject { tapped: o.tapped || e.tapped, counters: n.counters, ..o })
        &&& n.counters@ == add_all(o.counters@, e.counters)
        &&& log_grew(a.game_log@, b.game_log@, entering_lines(crate::objects::spec_obj_name(&a, id), e))
    }
    &&& e.copy_of is Some ==> copy_entered(a, b, i, id, e, reg)
    &&& b.events@ == a.events@.push(GameEvent::EnteredBattlefield { object: id, controller: b.objects@[i].controller })
    &&& b.players == a.players && b.resolving_spell == a.resolving_spell && b.combat == a.combat
    &&& b.until_end_of_turn == a.until_end_of_turn && b.control_effects == a.control_effects
    &&& b.set_pt_effects == a.set_pt_effects
    &&& zone_frame(a, b)
}

/// A move of the object at `i` in three steps: the zone change's two
/// halves, then the entry if it entered the battlefield.
pub open spec fn move_steps(st: GameState, mid: GameState, post: GameState, fin: GameState, i: int, id: ObjectId,
    to: Zone, under: Option<PlayerId>, reg: CardRegistry) -> bool {
    let o = st.objects@[i];
    let c = match under { Some(c) => c, None => o.controller };
    let was_creature = st.spec_card_types(id, &reg).contains(CardType::Creature);
    let pr = printed_reset(o, to, reg);
    &&& zone_pre(st, mid, i, id, to, c)
    &&& zone_post(mid, post, i, id, to, c, was_creature, pr)
    &&& if is_entering(o, to) {
        entry_applied(post, fin, i, id, move_plan(st, id, to, under, reg), reg)
    } else {
        fin == post
    }
}

/// What moving `id` to `to` (under `under`) does, and whether it moved.
pub open spec fn moved(st: GameState, fin: GameState, id: ObjectId, to: Zone, under: Option<PlayerId>,
    reg: CardRegistry, r: bool) -> bool {
    if defers(st, id, to, reg) {
        &&& !r
        &&& fin.pending_entry_choices@ == (if st.pending_entry_choices@.contains(id) {
                st.pending_entry_choices@
            } else {
                st.pending_entry_choices@.push(id)
            })
        &&& fin.pending_entry_controllers@ == (match under {
                Some(c) => controllers_put(st.pending_entry_controllers@, id, c),
                None => st.pending_entry_controllers@,
            })
        &&& fin == (GameState {
                pending_entry_choices: fin.pending_entry_choices,
                pending_entry_controllers: fin.pending_entry_controllers,
                ..st
            })
    } else {
        &&& r
        &&& match st.spec_index(id) {
            None => {
                &&& fin.resolving_spell == (if st.resolving_spell == Some(id) && to != Zone::Stack { None } else { st.resolving_spell })
                &&& fin == (GameState { resolving_spell: fin.resolving_spell, ..st })
            },
            Some(i) => exists|mid: GameState, post: GameState| #[trigger] move_steps(st, mid, post, fin, i, id, to, under, reg),

        }
    }
}

impl GameState {
    fn missing_move(&mut self, id: ObjectId, to: Zone)
        requires
            old(self).spec_index(id) is None,
        ensures
            final(self).resolving_spell == (if old(self).resolving_spell == Some(id) && to != Zone::Stack { None } else { old(self).resolving_spell }),
            *final(self) == (GameState { resolving_spell: final(self).resolving_spell, ..*old(self) }),
    {
        if self.resolving_spell == Some(id) && to != Zone::Stack {
            self.resolving_spell = None;
        }
    }

    pub(crate) fn enter_at(&mut self, i: usize, id: ObjectId, plan: &EnteringPermanent, registry: &CardRegistry)
        requires
            i < old(self).objects@.len(),
            old(self).objects@[i as int].id == id,
            old(self).spec_index(id) == Some(i as int),
            old(self).objects@[i as int].zone == Zone::Battlefield,
            plan.object == id,
            add_all_fits(old(self).objects@[i as int].counters@, plan.counters@),
        ensures
            entry_applied(*old(self), *final(self), i as int, id, plan@, *registry),
    {
        let ghost st = *self;
        self.apply_entering(plan, registry);
        let ghost s1 = *self;
        proof {
            crate::state::lemma_find_from(s1.objects@, id, 0);
            lemma_frame_objects_log(st, s1);
        }
        let controller = self.objects[i].controller;
        self.events.push(GameEvent::EnteredBattlefield { object: id, controller });
        proof {
            lemma_frame_events(s1, *self);
            lemma_frame_trans(st, s1, *self);
        }
    }

    /// How the permanent will enter the battlefield under `controller`,
    /// after every applicable replacement effect (CR 614), worked out
    /// against the state before the event (CR 616.1).
    pub(crate) fn plan_entering(&mut self, id: ObjectId, from: Option<Zone>, controller: PlayerId, registry: &CardRegistry)
        -> (r: EnteringPermanent)
        ensures
            *final(self) == *old(self),
            r@ == sp_for_entering(*old(self), *registry, EnteringView {
                object: id,
                from,
                controller,
                tapped: false,
                counters: Seq::empty(),
                copy_of: None,
            }),
    {
        let entering = EnteringPermanent {
            object: id,
            from,
            controller,
            tapped: false,
            counters: Vec::new(),
            copy_of: None,
        };
        assert(entering@.counters =~= Seq::empty());
        for_entering(self, entering, registry)
    }

    #[verifier::spinoff_prover]
    #[verifier::rlimit(80)]
    fn move_object_inner(&mut self, id: ObjectId, to: Zone, under: Option<PlayerId>, registry: &CardRegistry) -> (r: bool)
        requires
            move_ok(*old(self), id, to, under, *registry),
        ensures
            moved(*old(self), *final(self), id, to, under, *registry, r),
    {
        let defer = match self.get_object(id) {
            Some(o) => to == Zone::Battlefield && o.zone != Zone::Battlefield
                && o.entering_copy_choice == EnterAsCopyChoice::Unasked
                && match registry.get(o.card_id) {
                    Some(card) => card.chooses_copy_as_it_enters,
                    None => false,
                },
            None => false,
        };
        if defer {
            self.defer_entry(id, under);
            return false;
        }
        let i = match self.find_index(id) {
            Some(i) => i,
            None => {
                self.missing_move(id, to);
                return true;
            },
        };
        let ghost st = *self;
        let from = self.objects[i].zone;
        let c = match under {
            Some(c) => c,
            None => self.objects[i].controller,
        };
        let entering = to == Zone::Battlefield && from != Zone::Battlefield;
        let was_creature = self.is_creature(id, registry);
        let plan = if entering {
            Some(self.plan_entering(id, Some(from), c, registry))
        } else {
            None
        };
        let printed: Option<(String, Option<i32>, Option<i32>)> = if to != Zone::Battlefield && !self.objects[i].is_token {
            let printed_card = match self.objects[i].copy_grantor {
                Some(p) => p,
                None => self.objects[i].card_id,
            };
            match registry.get(printed_card) {
                Some(card) => Some((card.front.name.clone(), card.front.power, card.front.toughness)),
                None => None,
            }
        } else {
            None
        };
        self.change_zone_pre(i, id, to, c);
        let ghost mid = *self;
        self.change_zone_post(i, id, to, c, was_creature, printed, Ghost(printed_reset(st.objects@[i as int], to, *registry)));
        let ghost post = *self;
        proof {
            assert(mid.objects@[i as int] == (GameObject { controller: c, ..st.objects@[i as int] }));
        }
        let ghost pr = printed_reset(st.objects@[i as int], to, *registry);
        match plan {
            Some(p) => {
                proof {
                    reveal(moved_object);
                    crate::state::lemma_find_same_ids(st.objects@, post.objects@, id, 0);
                    crate::replacement::lemma_for_entering_keeps_object(st, *registry, EnteringView {
                        object: id, from: Some(from), controller: c, tapped: false, counters: Seq::empty(), copy_of: None,
                    });
                    assert(p@ == move_plan(st, id, to, under, *registry));
                }
                self.enter_at(i, id, &p, registry);
                proof {
                    assert(entry_applied(post, *self, i as int, id, move_plan(st, id, to, under, *registry), *registry));
                }
            },
            None => {},
        }
        proof {
            assert(zone_pre(st, mid, i as int, id, to, c));
            assert(zone_post(mid, post, i as int, id, to, c, was_creature, pr));
            assert(move_steps(st, mid, post, *self, i as int, id, to, under, *registry));
        }
        true
    }

    /// Move an object to another zone (CR 400). Leaving the battlefield
    /// makes it a new object (CR 400.7); entering runs the replacement layer
    /// first (CR 614, 616.1). Returns false for one reason only: the entry
    /// waits for an enters-as-a-copy choice (CR 614.12b).
    pub fn move_object(&mut self, id: ObjectId, to: Zone, registry: &CardRegistry) -> (r: bool)
        requires
            move_ok(*old(self), id, to, None, *registry),
        ensures
            moved(*old(self), *final(self), id, to, None, *registry, r),
    {
        self.move_object_inner(id, to, None, registry)
    }

    /// Move a permanent under a given controller (CR 110.2): the controller
    /// is set before the move, so the entry is announced under it.
    pub fn move_object_under_control(&mut self, id: ObjectId, to: Zone, controller: PlayerId, registry: &CardRegistry) -> (r: bool)
        requires
            move_ok(*old(self), id, to, Some(controller), *registry),
        ensures
            moved(*old(self), *final(self), id, to, Some(controller), *registry, r),
    {
        self.move_object_inner(id, to, Some(controller), registry)
    }
}

proof fn lemma_frame_objects_log(a: GameState, b: GameState)
    requires
        b == (GameState { objects: b.objects, game_log: b.game_log, ..a }),
    ensures
        zone_frame(a, b),
{
    reveal(zone_frame);
}

/// The player's library after a card is put into it (CR 401.1).
pub open spec fn library_put(lib: Seq<ObjectId>, id: ObjectId, position: LibraryPosition) -> Seq<ObjectId> {
    match position {
        LibraryPosition::Top => seq![id] + lib,
        LibraryPosition::Bottom => lib.push(id),
    }
}

/// A move followed by the card being placed in its owner's library.
pub open spec fn put_steps(st: GameState, mid: GameState, fin: GameState, id: ObjectId, position: LibraryPosition,
    reg: CardRegistry) -> bool {
    let owner = st.spec_obj(id).unwrap().owner;
    &&& moved(st, mid, id, Zone::Library, None, reg, true)
    &&& fin.players@.len() == mid.players@.len()
    &&& forall|p: int| 0 <= p < mid.players@.len() && p != owner.0 ==> fin.players@[p] == mid.players@[p]
    &&& fin.players@[owner.0 as int] == (crate::state::PlayerState {
            library_order: fin.players@[owner.0 as int].library_order,
            ..mid.players@[owner.0 as int]
        })
    &&& fin.players@[owner.0 as int].library_order@ == library_put(mid.players@[owner.0 as int].library_order@, id, position)
    &&& fin == (GameState { players: fin.players, ..mid })
}

/// The text of an optional source.
pub open spec fn source_view(source: Option<&str>) -> Option<Seq<char>> {
    match source {
        Some(s) => Some(s@),
        None => None,
    }
}

/// The log line of a discard, with the effect that caused it if known.
pub open spec fn discard_line(source: Option<Seq<char>>, player: PlayerId, name: Seq<char>) -> Seq<char> {
    match source {
        Some(s) => s + ": p"@ + spec_decimal(player.0 as nat) + " discarded "@ + name,
        None => "p"@ + spec_decimal(player.0 as nat) + " discarded "@ + name,
    }
}

/// A discard: the move to the graveyard, then its log line and event
/// (CR 701.8a).
pub open spec fn discard_steps(st: GameState, mid: GameState, fin: GameState, id: ObjectId, source: Option<Seq<char>>,
    reg: CardRegistry) -> bool {
    let player = st.spec_obj(id).unwrap().owner;
    &&& moved(st, mid, id, Zone::Graveyard, None, reg, true)
    &&& logged(mid.game_log@, fin.game_log@, LogLevel::Event, discard_line(source, player, crate::objects::spec_obj_name(&st, id)))
    &&& fin.events@ == mid.events@.push(GameEvent::Discarded { player, object: id })
    &&& fin == (GameState { game_log: fin.game_log, events: fin.events, ..mid })
}

impl GameState {
    /// An object ceases to exist (CR 111.7, 707.10): it leaves the game and
    /// every library's order.
    pub fn cease_to_exist(&mut self, id: ObjectId)
        ensures
            final(self).objects@ == (match old(self).spec_index(id) {
                Some(i) => old(self).objects@.remove(i),
                None => old(self).objects@,
            }),
            final(self).players@.len() == old(self).players@.len(),
            forall|p: int| 0 <= p < old(self).players@.len() ==> {
                let q = old(self).players@[p];
                let r = #[trigger] final(self).players@[p];
                r == (crate::state::PlayerState { library_order: r.library_order, ..q })
                    && r.library_order@ == drop_id(q.library_order@, id)
            },
            *final(self) == (GameState { objects: final(self).objects, players: final(self).players, ..*old(self) }),
            old(self).wf() ==> final(self).wf(),
    {
        match self.find_index(id) {
            Some(i) => {
                let ghost before = self.objects@;
                self.objects.remove(i);
                proof {
                    assert forall|a: int, b: int| 0 <= a < b < self.objects@.len() implies
                        self.objects@[a].id.0 < self.objects@[b].id.0 || !old(self).wf() by {
                        if old(self).wf() {
                            let a0 = if a < i { a } else { a + 1 };
                            let b0 = if b < i { b } else { b + 1 };
                            assert(self.objects@[a] == before[a0]);
                            assert(self.objects@[b] == before[b0]);
                        }
                    }
                    assert forall|a: int| 0 <= a < self.objects@.len() implies
                        self.objects@[a].id.0 < self.next_object_id || !old(self).wf() by {
                        if old(self).wf() {
                            let a0 = if a < i { a } else { a + 1 };
                            assert(self.objects@[a] == before[a0]);
                        }
                    }
                }
            },
            None => {},
        }
        let ghost st1 = *self;
        let mut p: usize = 0;
        while p < self.players.len()
            invariant
                p <= self.players@.len(),
                self.players@.len() == st1.players@.len(),
                forall|k: int| 0 <= k < p ==> {
                    let q = st1.players@[k];
                    let r = #[trigger] self.players@[k];
                    r == (crate::state::PlayerState { library_order: r.library_order, ..q })
                        && r.library_order@ == drop_id(q.library_order@, id)
                },
                forall|k: int| p <= k < st1.players@.len() ==> #[trigger] self.players@[k] == st1.players@[k],
                *self == (GameState { players: self.players, ..st1 }),
            decreases st1.players@.len() - p,
        {
            remove_id(&mut self.players[p].library_order, id);
            p = p + 1;
        }
    }

    /// Put an object into its owner's library, on top or at the bottom
    /// (CR 401.1, 701.15a, 701.17a). Nothing happens for a missing object.
    pub fn put_into_library(&mut self, id: ObjectId, position: LibraryPosition, registry: &CardRegistry)
        requires
            move_ok(*old(self), id, Zone::Library, None, *registry),
        ensures
            old(self).spec_obj(id) is None ==> *final(self) == *old(self),
            old(self).spec_obj(id) is Some ==> exists|mid: GameState| #[trigger] put_steps(*old(self), mid, *final(self), id, position, *registry),
    {
        let owner = match self.get_object(id) {
            Some(o) => o.owner,
            None => return,
        };
        let ghost st = *self;
        self.move_object(id, Zone::Library, registry);
        let ghost mid = *self;
        proof {
            assert(!defers(st, id, Zone::Library, *registry));
            let i = st.spec_index(id).unwrap();
            let (m, po) = choose|m: GameState, po: GameState| #[trigger] move_steps(st, m, po, mid, i, id, Zone::Library, None, *registry);
            assert(mid.players@.len() == st.players@.len());
            assert(mid.players@.len() == m.players@.len());
        }
        let p = owner.0 as usize;
        match position {
            LibraryPosition::Top => self.players[p].library_order.insert(0, id),
            LibraryPosition::Bottom => self.players[p].library_order.push(id),
        }
        proof {
            assert(self.players@[owner.0 as int].library_order@ =~= library_put(mid.players@[owner.0 as int].library_order@, id, position));
            assert(put_steps(st, mid, *self, id, position, *registry));
        }
    }

    fn discard_card_inner(&mut self, id: ObjectId, source: Option<&str>, registry: &CardRegistry)
        requires
            move_ok(*old(self), id, Zone::Graveyard, None, *registry),
        ensures
            old(self).spec_obj(id) is None ==> *final(self) == *old(self),
            old(self).spec_obj(id) is Some ==> exists|mid: GameState| #[trigger] discard_steps(*old(self), mid, *final(self), id,
                source_view(source), *registry),
    {
        let player = match self.get_object(id) {
            Some(o) => o.owner,
            None => return,
        };
        let ghost st = *self;
        let name = self.obj_name(id);
        self.move_object(id, Zone::Graveyard, registry);
        let ghost mid = *self;
        proof {
            reveal_strlit(": p");
            reveal_strlit("p");
            reveal_strlit(" discarded ");
        }
        let mut line = match source {
            Some(s) => {
                let mut l = String::from_str(s);
                l.append(": p");
                l
            },
            None => String::from_str("p"),
        };
        let who = decimal(player.0 as u64);
        line.append(who.as_str());
        line.append(" discarded ");
        line.append(name.as_str());
        proof {
            assert(line@ =~= discard_line(source_view(source), player, name@));
        }
        self.log(LogLevel::Event, line);
        let ghost s2 = *self;
        self.events.push(GameEvent::Discarded { player, object: id });
        proof {
            assert(discard_steps(st, mid, *self, id, source_view(source), *registry));
        }
    }

    /// Discard a card (CR 701.8a): it goes to its owner's graveyard, and the
    /// discard is logged and announced.
    pub fn discard_card(&mut self, id: ObjectId, registry: &CardRegistry)
        requires
            move_ok(*old(self), id, Zone::Graveyard, None, *registry),
        ensures
            old(self).spec_obj(id) is None ==> *final(self) == *old(self),
            old(self).spec_obj(id) is Some ==> exists|mid: GameState| #[trigger] discard_steps(*old(self), mid, *final(self), id, None, *registry),
    {
        self.discard_card_inner(id, None, registry);
    }

    /// Discard a card, naming the effect that caused it.
    pub fn discard_card_for(&mut self, id: ObjectId, source: &str, registry: &CardRegistry)
        requires
            move_ok(*old(self), id, Zone::Graveyard, None, *registry),
        ensures
            old(self).spec_obj(id) is None ==> *final(self) == *old(self),
            old(self).spec_obj(id) is Some ==> exists|mid: GameState| #[trigger] discard_steps(*old(self), mid, *final(self), id, Some(source@), *registry),
    {
        self.discard_card_inner(id, Some(source), registry);
    }

    /// Where a spell goes when it leaves the stack: exile if it was cast
    /// with flashback (CR 702.33a), its owner's graveyard otherwise.
    pub open spec fn spell_destination(&self, id: ObjectId) -> Zone {
        if self.spec_obj(id) matches Some(o) && o.cast_with_flashback { Zone::Exile } else { Zone::Graveyard }
    }

    /// Move a spell that has finished resolving to where it goes.
    pub(crate) fn move_spell_after_resolve(&mut self, object_id: ObjectId, registry: &CardRegistry)
        requires
            move_ok(*old(self), object_id, old(self).spell_destination(object_id), None, *registry),
        ensures
            moved(*old(self), *final(self), object_id, old(self).spell_destination(object_id), None, *registry, true),
    {
        let exile = match self.get_object(object_id) {
            Some(o) => o.cast_with_flashback,
            None => false,
        };
        if exile {
            self.move_object(object_id, Zone::Exile, registry);
        } else {
            self.move_object(object_id, Zone::Graveyard, registry);
        }
    }

    /// A countered spell goes where a resolved one would (CR 701.5a).
    pub fn move_countered_spell(&mut self, object_id: ObjectId, registry: &CardRegistry)
        requires
            move_ok(*old(self), object_id, old(self).spell_destination(object_id), None, *registry),
        ensures
            moved(*old(self), *final(self), object_id, old(self).spell_destination(object_id), None, *registry, true),
    {
        self.move_spell_after_resolve(object_id, registry);
    }
}

/// What a move to another zone than the battlefield is, seen from outside:
/// one object changed, into that zone, with its owner, and the players'
/// standing, the result and the pending choices untouched.
pub proof fn lemma_move_away(st: GameState, fin: GameState, id: ObjectId, to: Zone, reg: CardRegistry)
    requires
        moved(st, fin, id, to, None, reg, true),
        to != Zone::Battlefield,
        st.spec_index(id) is Some,
    ensures
        ({
            let i = st.spec_index(id).unwrap();
            let o = st.objects@[i];
            let n = fin.objects@[i];
            &&& fin.objects@ == st.objects@.update(i, n)
            &&& n.zone == to && n.id == id && n.owner == o.owner
            &&& n.controller == (if o.zone == Zone::Battlefield { o.owner } else { o.controller })
            &&& (o.zone == Zone::Battlefield ==> n.regeneration_shields == 0 && n.counters@.len() == 0 && n.attached_to is None)
            &&& (o.zone != Zone::Battlefield ==> n.counters@ == o.counters@)
            &&& n.is_token == o.is_token
            &&& fin.players@.len() == st.players@.len()
            &&& forall|p: int| 0 <= p < st.players@.len() ==> (#[trigger] fin.players@[p]).lost == st.players@[p].lost
                && fin.players@[p].life == st.players@[p].life
                && fin.players@[p].has_drawn_from_empty == st.players@[p].has_drawn_from_empty
                && fin.players@[p].id == st.players@[p].id
                && fin.players@[p] == (crate::state::PlayerState {
                    library_order: fin.players@[p].library_order,
                    graveyard_order: fin.players@[p].graveyard_order,
                    ..st.players@[p]
                })
            &&& fin.result == st.result && fin.awaiting_action == st.awaiting_action
            &&& fin.next_object_id == st.next_object_id && fin.creature_died_this_turn == st.creature_died_this_turn
        }),
{
    reveal(zone_frame);
    reveal(moved_object);
    let i = st.spec_index(id).unwrap();
    crate::state::lemma_find_from(st.objects@, id, 0);
    let (mid, post) = choose|mid: GameState, post: GameState| #[trigger] move_steps(st, mid, post, fin, i, id, to, None, reg);
    let o = st.objects@[i];
    assert(mid.objects@ == st.objects@.update(i, GameObject { controller: o.controller, ..o }));
    assert(fin.objects@ =~= st.objects@.update(i, fin.objects@[i]));
    assert forall|p: int| 0 <= p < st.players@.len() implies (#[trigger] fin.players@[p]).lost == st.players@[p].lost
        && fin.players@[p].life == st.players@[p].life
        && fin.players@[p].has_drawn_from_empty == st.players@[p].has_drawn_from_empty
        && fin.players@[p].id == st.players@[p].id by {
        if p != o.owner.0 {
            assert(mid.players@[p] == st.players@[p]);
        }
    }
}
/// A move that did not wait changes only the object moved: every other
/// object, the ids in order, the queued entries, the question being asked
/// and who is still in stay as they were.
pub proof fn lemma_move_others(st: GameState, fin: GameState, id: ObjectId, to: Zone, under: Option<PlayerId>,
    reg: CardRegistry, r: bool)
    requires
        moved(st, fin, id, to, under, reg, r),
        !defers(st, id, to, reg),
    ensures
        fin.objects@.len() == st.objects@.len(),
        forall|k: int| 0 <= k < st.objects@.len() ==> (#[trigger] fin.objects@[k]).id == st.objects@[k].id,
        forall|k: int| 0 <= k < st.objects@.len() && st.objects@[k].id != id ==> #[trigger] fin.objects@[k] == st.objects@[k],
        fin.pending_entry_choices == st.pending_entry_choices,
        fin.pending_entry_controllers == st.pending_entry_controllers,
        fin.awaiting_action == st.awaiting_action,
        fin.next_object_id == st.next_object_id,
        fin.players@.len() == st.players@.len(),
{
    reveal(zone_frame);
    match st.spec_index(id) {
        None => {},
        Some(i) => {
            crate::state::lemma_find_from(st.objects@, id, 0);
            let (mid, post) = choose|mid: GameState, post: GameState| #[trigger] move_steps(st, mid, post, fin, i, id, to, under, reg);
            reveal(moved_object);
            assert forall|k: int| 0 <= k < st.objects@.len() implies (#[trigger] fin.objects@[k]).id == st.objects@[k].id by {
                if k != i {
                    assert(mid.objects@[k] == st.objects@[k]);
                    assert(post.objects@[k] == mid.objects@[k]);
                }
            }
            assert forall|k: int| 0 <= k < st.objects@.len() && st.objects@[k].id != id implies #[trigger] fin.objects@[k] == st.objects@[k] by {
                assert(k != i);
                assert(mid.objects@[k] == st.objects@[k]);
                assert(post.objects@[k] == mid.objects@[k]);
            }
        },
    }
}

} // verus!
