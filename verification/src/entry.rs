//! Entries waiting on an enters-as-a-copy choice (CR 614.12b): asking for
//! the choice, keeping the question current, and recording the answer.

use vstd::prelude::*;
use crate::cards::{CardDef, CardRegistry, ReplacementDef};
use crate::ids::{CardId, ObjectId, PlayerId};
use crate::objects::spec_counter;
use crate::replacement::{
    candidates, fold_entering, own_card, pass_candidates, sp_for_entering, sp_pass, sp_replace_entering,
    without_object, EnteringView, Pass,
};
use crate::actions::Target;
use crate::objects::spec_obj_name;
use crate::state::{AwaitingAction, EnterAsCopyChoice, GameObject, GameState, PendingEffect, ResolutionChoiceKind};
use crate::util::{drop_id, drop_key, remove_id, remove_keyed};
use crate::types::{CardType, CounterType, Zone};
use crate::zones::{add_all, add_all_fits, defers, lemma_move_others, move_ok, move_plan, moved, pair_index};

verus! {

/// How many of the candidates are the permanent's own.
pub open spec fn own_entries(cs: Seq<(ObjectId, CardId)>, id: ObjectId) -> nat
    decreases cs.len(),
{
    if cs.len() == 0 {
        0
    } else {
        own_entries(cs.drop_last(), id) + if cs.last().0 == id { 1nat } else { 0nat }
    }
}

/// Some card of the registry makes a permanent enter with these counters.
pub open spec fn registry_counter(reg: CardRegistry, x: (CounterType, u32)) -> bool {
    exists|i: int| 0 <= i < reg.cards@.len()
        && #[trigger] reg.cards@[i].replacement == Some(ReplacementDef::EntersWithCounters { counter: x.0, count: x.1 })
}

/// The object has room for the counters any card could make it enter with.
pub open spec fn counters_room(o: GameObject, reg: CardRegistry) -> bool {
    forall|x: (CounterType, u32)| #[trigger] registry_counter(reg, x) ==> spec_counter(o.counters@, x.0) + x.1 <= u32::MAX
}

/// The card found for an id is one of the registry's.
proof fn lemma_card_index(cards: Seq<CardDef>, id: CardId)
    ensures
        crate::cards::spec_card_index(cards, id) matches Some(i) ==> 0 <= i < cards.len() && cards[i].id == id,
    decreases cards.len(),
{
    if cards.len() > 0 {
        lemma_card_index(cards.drop_first(), id);
    }
}

/// A pass over candidates adds at most one counter entry per own
/// candidate, each from a card of the registry, after the ones it had; a
/// copy-only pass adds none.
proof fn lemma_fold_counters(st: GameState, cs: Seq<(ObjectId, CardId)>, reg: CardRegistry, e: EnteringView, pass: Pass)
    ensures
        ({
            let f = fold_entering(st, cs, reg, e, pass);
            &&& f.object == e.object
            &&& f.counters.len() <= e.counters.len() + own_entries(cs, e.object)
            &&& f.counters.len() >= e.counters.len()
            &&& f.counters.subrange(0, e.counters.len() as int) == e.counters
            &&& forall|k: int| e.counters.len() <= k < f.counters.len() ==> #[trigger] registry_counter(reg, f.counters[k])
            &&& pass == Pass::CopyOnly ==> f.counters == e.counters
        }),
    decreases cs.len(),
{
    if cs.len() == 0 {
        assert(e.counters.subrange(0, e.counters.len() as int) =~= e.counters);
    } else {
        lemma_fold_counters(st, cs.drop_last(), reg, e, pass);
        let prior = fold_entering(st, cs.drop_last(), reg, e, pass);
        let f = fold_entering(st, cs, reg, e, pass);
        match reg.spec_get(cs.last().1) {
            Some(card) => {
                lemma_card_index(reg.cards@, cs.last().1);
                let ci = crate::cards::spec_card_index(reg.cards@, cs.last().1).unwrap();
                assert(reg.cards@[ci] == card);
                match sp_replace_entering(st, cs.last().0, card, prior) {
                    Some(next) => {
                        if f.counters.len() > prior.counters.len() {
                            assert(f.counters == prior.counters.push(f.counters.last()));
                            assert(f.counters.subrange(0, e.counters.len() as int) =~= prior.counters.subrange(0, e.counters.len() as int));
                            assert(registry_counter(reg, f.counters.last()));
                            assert forall|k: int| e.counters.len() <= k < f.counters.len() implies #[trigger] registry_counter(reg, f.counters[k]) by {
                                if k < prior.counters.len() {
                                    assert(f.counters[k] == prior.counters[k]);
                                }
                            }
                        }
                    },
                    None => {},
                }
            },
            None => {},
        }
    }
}

/// Own entries add up over a concatenation.
proof fn lemma_own_concat(a: Seq<(ObjectId, CardId)>, b: Seq<(ObjectId, CardId)>, id: ObjectId)
    ensures
        own_entries(a + b, id) == own_entries(a, id) + own_entries(b, id),
    decreases b.len(),
{
    if b.len() == 0 {
        assert(a + b =~= a);
    } else {
        assert((a + b).drop_last() =~= a + b.drop_last());
        lemma_own_concat(a, b.drop_last(), id);
    }
}

/// The candidates without the permanent's own have none of its.
proof fn lemma_own_without(cs: Seq<(ObjectId, CardId)>, id: ObjectId)
    ensures
        own_entries(without_object(cs, id), id) == 0,
    decreases cs.len(),
{
    if cs.len() > 0 {
        lemma_own_without(cs.drop_last(), id);
        let prior = without_object(cs.drop_last(), id);
        assert(prior.push(cs.last()).drop_last() =~= prior);
    }
}

/// The candidates from objects none of which has the id.
proof fn lemma_own_absent(objs: Seq<GameObject>, reg: CardRegistry, id: ObjectId)
    requires
        forall|k: int| 0 <= k < objs.len() ==> (#[trigger] objs[k]).id != id,
    ensures
        own_entries(candidates(objs, reg), id) == 0,
    decreases objs.len(),
{
    if objs.len() > 0 {
        lemma_own_absent(objs.drop_last(), reg, id);
        let prior = candidates(objs.drop_last(), reg);
        assert(prior.push((objs.last().id, objs.last().card_id)).drop_last() =~= prior);
        assert(objs[objs.len() - 1].id != id);
    }
}

/// With distinct ids, an object is a candidate at most once.
proof fn lemma_own_candidates(objs: Seq<GameObject>, next: u64, reg: CardRegistry, id: ObjectId)
    requires
        crate::state::objects_wf(objs, next),
    ensures
        own_entries(candidates(objs, reg), id) <= 1,
    decreases objs.len(),
{
    if objs.len() > 0 {
        let d = objs.drop_last();
        let prior = candidates(d, reg);
        assert(prior.push((objs.last().id, objs.last().card_id)).drop_last() =~= prior);
        assert(crate::state::objects_wf(d, next));
        if objs.last().id == id {
            assert forall|k: int| 0 <= k < d.len() implies (#[trigger] d[k]).id != id by {
                assert(objs[k].id.0 < objs[objs.len() - 1].id.0);
            }
            lemma_own_absent(d, reg, id);
        } else {
            lemma_own_candidates(d, next, reg, id);
        }
    }
}

/// A pass's candidates hold the permanent's own at most once.
proof fn lemma_pass_own_once(st: GameState, reg: CardRegistry, object: ObjectId, own: Option<CardId>)
    requires
        st.wf(),
    ensures
        own_entries(pass_candidates(st, reg, object, own), object) <= 1,
{
    let cs = candidates(st.objects@, reg);
    match own {
        Some(card) => {
            let first = seq![(object, card)];
            assert(pass_candidates(st, reg, object, own) == first + without_object(cs, object));
            lemma_own_concat(first, without_object(cs, object), object);
            lemma_own_without(cs, object);
            assert(first.drop_last() =~= Seq::<(ObjectId, CardId)>::empty());
            assert(own_entries(Seq::<(ObjectId, CardId)>::empty(), object) == 0);
            assert(own_entries(first, object) == 1);
        },
        None => {
            lemma_own_candidates(st.objects@, st.next_object_id, reg, object);
        },
    }
}

/// A permanent entering with no counters yet enters with at most one
/// entry of them, from a card of the registry.
pub proof fn lemma_entry_counters(st: GameState, reg: CardRegistry, e: EnteringView)
    requires
        st.wf(),
        e.counters.len() == 0,
    ensures
        sp_for_entering(st, reg, e).counters.len() <= 1,
        forall|k: int| 0 <= k < sp_for_entering(st, reg, e).counters.len()
            ==> #[trigger] registry_counter(reg, sp_for_entering(st, reg, e).counters[k]),
{
    let cs1 = pass_candidates(st, reg, e.object, own_card(st, e, Pass::CopyOnly));
    lemma_fold_counters(st, cs1, reg, e, Pass::CopyOnly);
    let e1 = sp_pass(st, reg, e, Pass::CopyOnly);
    let cs2 = pass_candidates(st, reg, e1.object, own_card(st, e1, Pass::EverythingElse));
    lemma_fold_counters(st, cs2, reg, e1, Pass::EverythingElse);
    lemma_pass_own_once(st, reg, e1.object, own_card(st, e1, Pass::EverythingElse));
}

/// One entry of counters fits where there is room for it.
pub proof fn lemma_room_fits(o: GameObject, reg: CardRegistry, es: Seq<(CounterType, u32)>)
    requires
        counters_room(o, reg),
        es.len() <= 1,
        forall|k: int| 0 <= k < es.len() ==> #[trigger] registry_counter(reg, es[k]),
    ensures
        add_all_fits(o.counters@, es),
{
    let none = Seq::<(CounterType, u32)>::empty();
    assert(add_all_fits(o.counters@, none));
    if es.len() == 1 {
        assert(es.drop_last() =~= none);
        assert(registry_counter(reg, es[0]));
        assert(es.last() == es[0]);
        assert(add_all(o.counters@, none) == o.counters@);
        assert(spec_counter(o.counters@, es[0].0) + es[0].1 <= u32::MAX);
    } else {
        assert(es =~= none);
    }
}


/// What a move onto the battlefield needs of the object: its owner has a
/// seat, and it has room for counters it could enter with.
pub open spec fn entry_ok(st: GameState, object: ObjectId, reg: CardRegistry) -> bool {
    match st.spec_obj(object) {
        Some(o) => (o.owner.0 as int) < st.players@.len() && counters_room(o, reg),
        None => true,
    }
}

/// The controller a deferred entry waits under, if one was asked for.
pub open spec fn pending_controller(s: Seq<(ObjectId, PlayerId)>, id: ObjectId) -> Option<PlayerId> {
    match pair_index(s, id) {
        Some(k) => Some(s[k].1),
        None => None,
    }
}

/// The answer recorded on the object and its entry no longer pending.
pub open spec fn choice_recorded(st: GameState, mid: GameState, object: ObjectId, choice: EnterAsCopyChoice) -> bool {
    &&& match st.spec_index(object) {
        Some(i) => mid.objects@ == st.objects@.update(i, GameObject { entering_copy_choice: choice, ..st.objects@[i] }),
        None => mid.objects@ == st.objects@,
    }
    &&& mid.pending_entry_choices@ == drop_id(st.pending_entry_choices@, object)
    &&& mid.pending_entry_controllers@ == drop_key(st.pending_entry_controllers@, object)
    &&& mid == (GameState {
        objects: mid.objects,
        pending_entry_choices: mid.pending_entry_choices,
        pending_entry_controllers: mid.pending_entry_controllers,
        ..st
    })
}

/// The answer recorded, then the entry made under the controller it waited
/// under, or as a plain move.
pub open spec fn entry_completed(st: GameState, mid: GameState, fin: GameState, object: ObjectId,
    choice: EnterAsCopyChoice, reg: CardRegistry, r: bool) -> bool {
    &&& choice_recorded(st, mid, object, choice)
    &&& moved(mid, fin, object, Zone::Battlefield, pending_controller(st.pending_entry_controllers@, object), reg, r)
}

fn find_pending_controller(v: &Vec<(ObjectId, PlayerId)>, id: ObjectId) -> (r: Option<PlayerId>)
    ensures
        r == pending_controller(v@, id),
{
    let mut i: usize = 0;
    while i < v.len()
        invariant
            i <= v@.len(),
            pair_index(v@.take(i as int), id) is None,
        decreases v@.len() - i,
    {
        proof { assert(v@.take(i + 1).drop_last() =~= v@.take(i as int)); }
        if v[i].0 == id {
            proof {
                lemma_pair_prefix(v@, id, i + 1);
            }
            return Some(v[i].1);
        }
        i = i + 1;
    }
    proof { assert(v@.take(i as int) =~= v@); }
    None
}

/// A match in a prefix is the first match overall.
proof fn lemma_pair_prefix(s: Seq<(ObjectId, PlayerId)>, id: ObjectId, n: int)
    requires
        0 <= n <= s.len(),
        pair_index(s.take(n), id) is Some,
    ensures
        pair_index(s, id) == pair_index(s.take(n), id),
    decreases s.len() - n,
{
    if n < s.len() {
        assert(s.take(n + 1).drop_last() =~= s.take(n));
        lemma_pair_prefix(s, id, n + 1);
    } else {
        assert(s.take(n) =~= s);
    }
}

fn set_choice(o: &mut GameObject, choice: EnterAsCopyChoice)
    ensures
        *final(o) == (GameObject { entering_copy_choice: choice, ..*old(o) }),
{
    o.entering_copy_choice = choice;
}

/// Record the answer to an enters-as-a-copy choice and make the entry that
/// waited on it, under the controller it was asked for, if any.
pub fn record_entry_choice(state: &mut GameState, object: ObjectId, choice: EnterAsCopyChoice, registry: &CardRegistry)
    requires
        old(state).wf(),
        entry_ok(*old(state), object, *registry),
    ensures
        exists|mid: GameState, r: bool| #[trigger] entry_completed(*old(state), mid, *final(state), object, choice, *registry, r),
{
    let ghost st = *state;
    match state.find_index(object) {
        Some(i) => {
            set_choice(&mut state.objects[i], choice);
            proof {
                assert(state.objects@ =~= st.objects@.update(i as int, GameObject { entering_copy_choice: choice, ..st.objects@[i as int] }));
            }
        },
        None => {},
    }
    remove_id(&mut state.pending_entry_choices, object);
    let under = find_pending_controller(&state.pending_entry_controllers, object);
    remove_keyed(&mut state.pending_entry_controllers, object);
    let ghost mid = *state;
    proof {
        assert(choice_recorded(st, mid, object, choice));
        assert forall|k: int| 0 <= k < st.objects@.len() implies #[trigger] st.objects@[k].id == mid.objects@[k].id by {}
        crate::state::lemma_find_same_ids(st.objects@, mid.objects@, object, 0);
        match st.spec_index(object) {
            Some(i) => {
                crate::state::lemma_find_from(st.objects@, object, 0);
                let o = mid.objects@[i];
                let view = EnteringView {
                    object,
                    from: Some(o.zone),
                    controller: match under { Some(c) => c, None => o.controller },
                    tapped: false,
                    counters: Seq::empty(),
                    copy_of: None,
                };
                assert(mid.wf()) by {
                    assert forall|a: int, b: int| 0 <= a < b < mid.objects@.len() implies mid.objects@[a].id.0 < mid.objects@[b].id.0 by {
                        assert(mid.objects@[a].id == st.objects@[a].id);
                        assert(mid.objects@[b].id == st.objects@[b].id);
                    }
                    assert forall|a: int| 0 <= a < mid.objects@.len() implies mid.objects@[a].id.0 < mid.next_object_id by {
                        assert(mid.objects@[a].id == st.objects@[a].id);
                    }
                }
                lemma_entry_counters(mid, *registry, view);
                assert(o.counters == st.objects@[i].counters);
                lemma_room_fits(o, *registry, sp_for_entering(mid, *registry, view).counters);
                assert(move_plan(mid, object, Zone::Battlefield, under, *registry) == sp_for_entering(mid, *registry, view));
            },
            None => {},
        }
        assert(move_ok(mid, object, Zone::Battlefield, under, *registry));
    }
    let r = match under {
        Some(c) => state.move_object_under_control(object, Zone::Battlefield, c, registry),
        None => state.move_object(object, Zone::Battlefield, registry),
    };
    proof {
        assert(entry_completed(st, mid, *state, object, choice, *registry, r));
    }
}

/// Every queued entry can be made.
pub open spec fn pending_ok(st: GameState, reg: CardRegistry) -> bool {
    forall|k: int| 0 <= k < st.pending_entry_choices@.len() ==> #[trigger] entry_ok(st, st.pending_entry_choices@[k], reg)
}

/// The creatures on the battlefield, as targets, in id order.
pub open spec fn creature_targets(st: GameState, reg: CardRegistry, objs: Seq<GameObject>) -> Seq<Target>
    decreases objs.len(),
{
    if objs.len() == 0 {
        Seq::empty()
    } else {
        let r = creature_targets(st, reg, objs.drop_last(), );
        let o = objs.last();
        if o.zone == Zone::Battlefield && st.spec_card_types(o.id, &reg).contains(CardType::Creature) {
            r.push(Target::Object(o.id))
        } else {
            r
        }
    }
}

/// The question an entry waiting on its copy choice asks: its controller
/// may name any creature on the battlefield (a choice, not a target: CR
/// 115.1, 614.12b).
pub open spec fn copy_prompt(st: GameState, reg: CardRegistry) -> bool {
    &&& st.pending_entry_choices@.len() > 0
    &&& {
        let object = st.pending_entry_choices@[0];
        match st.awaiting_action {
            Some(AwaitingAction::ResolutionChoice { player, source, choice }) => match choice {
                ResolutionChoiceKind::ChooseTarget { description, options, optional, effect } => {
                    &&& st.spec_obj(object) matches Some(o) && player == o.controller
                    &&& source == object
                    &&& optional
                    &&& effect == PendingEffect::EnterAsCopy { object }
                    &&& description@ == spec_obj_name(&st, object) + ": you may have it enter as a copy of a creature on the battlefield"@
                    &&& options@ == creature_targets(st, reg, st.objects@)
                    &&& options@.len() > 0
                },
                _ => false,
            },
            _ => false,
        }
    }
}

/// Objects other than `id` read the same.
proof fn lemma_other_objects(a: GameState, b: GameState, id: ObjectId, x: ObjectId)
    requires
        b.objects@.len() == a.objects@.len(),
        forall|k: int| 0 <= k < a.objects@.len() ==> (#[trigger] b.objects@[k]).id == a.objects@[k].id,
        forall|k: int| 0 <= k < a.objects@.len() && a.objects@[k].id != id ==> #[trigger] b.objects@[k] == a.objects@[k],
        x != id,
    ensures
        b.spec_obj(x) == a.spec_obj(x),
{
    crate::state::lemma_find_same_ids(a.objects@, b.objects@, x, 0);
    crate::state::lemma_find_from(a.objects@, x, 0);
}

/// Dropping an id that is there shortens the sequence.
proof fn lemma_drop_id_len(s: Seq<ObjectId>, id: ObjectId)
    ensures
        drop_id(s, id).len() <= s.len(),
        s.contains(id) ==> drop_id(s, id).len() < s.len(),
        forall|k: int| 0 <= k < drop_id(s, id).len() ==> s.contains(#[trigger] drop_id(s, id)[k]) && drop_id(s, id)[k] != id,
    decreases s.len(),
{
    if s.len() > 0 {
        lemma_drop_id_len(s.drop_last(), id);
        let p = drop_id(s.drop_last(), id);
        let d = drop_id(s, id);
        if s.contains(id) && s.last() != id {
            let w = choose|w: int| 0 <= w < s.len() && s[w] == id;
            assert(s.drop_last()[w] == id);
        }
        assert forall|k: int| 0 <= k < d.len() implies s.contains(#[trigger] d[k]) && d[k] != id by {
            if k < p.len() {
                assert(d[k] == p[k]);
                let w = choose|w: int| 0 <= w < s.drop_last().len() && s.drop_last()[w] == p[k];
                assert(s[w] == p[k]);
            } else {
                assert(d[k] == s.last());
                assert(s[s.len() - 1] == s.last());
            }
        }
    }
}

/// The queued entry at the front is made without a copy: it enters as
/// itself.
fn decline_front(state: &mut GameState, registry: &CardRegistry)
    requires
        old(state).wf(),
        pending_ok(*old(state), *registry),
        old(state).pending_entry_choices@.len() > 0,
        old(state).awaiting_action is None,
    ensures
        final(state).wf(),
        pending_ok(*final(state), *registry),
        final(state).pending_entry_choices@.len() < old(state).pending_entry_choices@.len(),
        final(state).awaiting_action is None,
        entry_declined(*old(state), *final(state), *registry),
{
    let object = state.pending_entry_choices[0];
    let ghost before = *state;
    proof {
        assert(entry_ok(before, before.pending_entry_choices@[0], *registry));
    }
    record_entry_choice(state, object, EnterAsCopyChoice::Declined, registry);
    proof {
        let (mid, r) = choose|mid: GameState, r: bool| #[trigger] entry_completed(before, mid, *state, object,
            EnterAsCopyChoice::Declined, *registry, r);
        crate::state::lemma_find_from(before.objects@, object, 0);
        assert forall|j: int| 0 <= j < before.objects@.len() implies #[trigger] before.objects@[j].id == mid.objects@[j].id by {}
        crate::state::lemma_find_same_ids(before.objects@, mid.objects@, object, 0);
        assert(!defers(mid, object, Zone::Battlefield, *registry));
        lemma_move_others(mid, *state, object, Zone::Battlefield,
            pending_controller(before.pending_entry_controllers@, object), *registry, r);
        lemma_drop_id_len(before.pending_entry_choices@, object);
        assert(before.pending_entry_choices@[0] == object);
        assert(before.pending_entry_choices@.contains(object));
        assert(mid.objects@.len() == before.objects@.len());
        assert(state.objects@.len() == before.objects@.len());
        assert forall|j: int| 0 <= j < before.objects@.len() implies (#[trigger] mid.objects@[j]).id == before.objects@[j].id by {}
        assert forall|j: int| 0 <= j < before.objects@.len() && before.objects@[j].id != object implies
            #[trigger] mid.objects@[j] == before.objects@[j] by {}
        assert(state.wf()) by {
            assert forall|a: int, b: int| 0 <= a < b < state.objects@.len() implies state.objects@[a].id.0 < state.objects@[b].id.0 by {
                assert(state.objects@[a].id == before.objects@[a].id);
                assert(state.objects@[b].id == before.objects@[b].id);
            }
            assert forall|a: int| 0 <= a < state.objects@.len() implies state.objects@[a].id.0 < state.next_object_id by {
                assert(state.objects@[a].id == before.objects@[a].id);
            }
        }
        assert forall|j: int| 0 <= j < state.pending_entry_choices@.len() implies
            #[trigger] entry_ok(*state, state.pending_entry_choices@[j], *registry) by {
            let x = state.pending_entry_choices@[j];
            let dp = drop_id(before.pending_entry_choices@, object);
            assert(dp[j] == x);
            assert(before.pending_entry_choices@.contains(x));
            let w = choose|w: int| 0 <= w < before.pending_entry_choices@.len() && before.pending_entry_choices@[w] == x;
            assert(entry_ok(before, before.pending_entry_choices@[w], *registry));
            lemma_other_objects(before, mid, object, x);
            lemma_other_objects(mid, *state, object, x);
        }
    }
}

/// The creatures on the battlefield, as targets.
fn collect_creature_targets(state: &GameState, registry: &CardRegistry) -> (r: Vec<Target>)
    requires
        state.wf(),
    ensures
        r@ == creature_targets(*state, *registry, state.objects@),
{
    let mut options: Vec<Target> = Vec::new();
    let mut k: usize = 0;
    while k < state.objects.len()
        invariant
            state.wf(),
            k <= state.objects@.len(),
            options@ == creature_targets(*state, *registry, state.objects@.take(k as int)),
        decreases state.objects@.len() - k,
    {
        proof {
            assert(state.objects@.take(k + 1).drop_last() =~= state.objects@.take(k as int));
            crate::state::lemma_find_unique(state.objects@, state.next_object_id, state.objects@[k as int].id, k as int);
        }
        let id = state.objects[k].id;
        if state.objects[k].zone == Zone::Battlefield && state.is_creature(id, registry) {
            options.push(Target::Object(id));
        }
        k = k + 1;
    }
    proof {
        assert(state.objects@.take(k as int) =~= state.objects@);
    }
    options
}

/// Ask the controller of the entry at the front for its copy choice.
fn ask_copy_choice(state: &mut GameState, controller: PlayerId, options: Vec<Target>, registry: &CardRegistry)
    requires
        old(state).pending_entry_choices@.len() > 0,
        old(state).spec_obj(old(state).pending_entry_choices@[0]) matches Some(o) && o.controller == controller,
        options@ == creature_targets(*old(state), *registry, old(state).objects@),
        options@.len() > 0,
    ensures
        copy_prompt(*final(state), *registry),
        *final(state) == (GameState { awaiting_action: final(state).awaiting_action, ..*old(state) }),
{
    let ghost before = *state;
    let object = state.pending_entry_choices[0];
    proof {
        reveal_strlit(": you may have it enter as a copy of a creature on the battlefield");
    }
    let mut description = state.obj_name(object);
    description.append(": you may have it enter as a copy of a creature on the battlefield");
    state.awaiting_action = Some(AwaitingAction::ResolutionChoice {
        player: controller,
        source: object,
        choice: ResolutionChoiceKind::ChooseTarget {
            description,
            options,
            optional: true,
            effect: PendingEffect::EnterAsCopy { object },
        },
    });
    proof {
        lemma_targets_same(before, *state, *registry, state.objects@);
    }
}

/// The queued entry at the front dropped, its object gone.
pub open spec fn entry_dropped(a: GameState, m: GameState) -> bool {
    &&& m.pending_entry_choices@ == a.pending_entry_choices@.drop_first()
    &&& m == (GameState { pending_entry_choices: m.pending_entry_choices, ..a })
}

/// The queued entry at the front made as itself, declining the copy.
pub open spec fn entry_declined(a: GameState, m: GameState, reg: CardRegistry) -> bool {
    a.pending_entry_choices@.len() > 0 && exists|mid: GameState, r: bool|
        #[trigger] entry_completed(a, mid, m, a.pending_entry_choices@[0], EnterAsCopyChoice::Declined, reg, r)
}

/// One entry of the queue dealt with without a question: the front entry
/// dropped if its object is gone, or made as itself if there is no
/// creature to copy.
pub open spec fn entry_step(x: GameState, y: GameState, reg: CardRegistry) -> bool {
    &&& x.pending_entry_choices@.len() > 0
    &&& if x.spec_obj(x.pending_entry_choices@[0]) is None {
        entry_dropped(x, y)
    } else {
        creature_targets(x, reg, x.objects@).len() == 0 && entry_declined(x, y, reg)
    }
}

/// Where working through the queue stops: with no entry left, nothing
/// changes; otherwise the front entry has an object and a creature to
/// copy, and its controller is asked.
pub open spec fn entry_stop(x: GameState, b: GameState, reg: CardRegistry) -> bool {
    if x.pending_entry_choices@.len() == 0 {
        b == x
    } else {
        &&& x.spec_obj(x.pending_entry_choices@[0]) is Some
        &&& creature_targets(x, reg, x.objects@).len() > 0
        &&& b == (GameState { awaiting_action: b.awaiting_action, ..x })
        &&& copy_prompt(b, reg)
    }
}

/// The states passed through on the way from `a` to `b`.
pub open spec fn run_trace(t: Seq<GameState>, a: GameState, b: GameState, reg: CardRegistry) -> bool {
    &&& t.len() > 0
    &&& t[0] == a
    &&& forall|i: int| 0 <= i < t.len() - 1 ==> entry_step(#[trigger] t[i], t[i + 1], reg)
    &&& entry_stop(t.last(), b, reg)
}

/// Working through the queue of entries waiting on a copy choice, from
/// `a` to `b`: entries dealt with one after another, each from the front,
/// until the queue is empty or a question is asked.
pub open spec fn pending_run(a: GameState, b: GameState, reg: CardRegistry) -> bool {
    exists|t: Seq<GameState>| #[trigger] run_trace(t, a, b, reg)
}

/// Ask for the enters-as-a-copy choices that queued entries wait on, one
/// at a time: an entry whose object is gone is dropped, one with nothing
/// to copy enters as itself, and otherwise its controller is asked.
pub fn process_pending_entry_choices(state: &mut GameState, registry: &CardRegistry)
    requires
        old(state).wf(),
        pending_ok(*old(state), *registry),
    ensures
        final(state).wf(),
        old(state).awaiting_action is Some ==> *final(state) == *old(state),
        old(state).awaiting_action is None ==> pending_run(*old(state), *final(state), *registry),
        final(state).awaiting_action is None ==> final(state).pending_entry_choices@.len() == 0,
        old(state).awaiting_action is None && final(state).awaiting_action is Some ==> copy_prompt(*final(state), *registry),
{
    if state.awaiting_action.is_some() {
        return;
    }
    let ghost mut t: Seq<GameState> = seq![*state];
    while state.awaiting_action.is_none()
        invariant_except_break
            pending_ok(*state, *registry),
            state.awaiting_action is None,
            t.len() > 0,
            t[0] == *old(state),
            t.last() == *state,
            forall|i: int| 0 <= i < t.len() - 1 ==> entry_step(#[trigger] t[i], t[i + 1], *registry),
        invariant
            state.wf(),
            old(state).awaiting_action is None,
        ensures
            state.wf(),
            state.awaiting_action is None ==> state.pending_entry_choices@.len() == 0,
            state.awaiting_action is Some ==> copy_prompt(*state, *registry),
            pending_run(*old(state), *state, *registry),
        decreases state.pending_entry_choices@.len(),
    {
        if state.pending_entry_choices.len() == 0 {
            proof { assert(run_trace(t, *old(state), *state, *registry)); }
            return;
        }
        let object = state.pending_entry_choices[0];
        let ghost before = *state;
        let controller = match state.get_object(object) {
            Some(o) => o.controller,
            None => {
                state.pending_entry_choices.remove(0);
                proof {
                    assert forall|k: int| 0 <= k < state.pending_entry_choices@.len() implies
                        #[trigger] entry_ok(*state, state.pending_entry_choices@[k], *registry) by {
                        assert(state.pending_entry_choices@[k] == before.pending_entry_choices@[k + 1]);
                        assert(entry_ok(before, before.pending_entry_choices@[k + 1], *registry));
                    }
                    assert(state.pending_entry_choices@ =~= before.pending_entry_choices@.drop_first());
                    assert(entry_step(before, *state, *registry));
                    let t0 = t;
                    t = t.push(*state);
                    assert forall|i: int| 0 <= i < t.len() - 1 implies entry_step(#[trigger] t[i], t[i + 1], *registry) by {
                        if i < t0.len() - 1 {
                            assert(t[i] == t0[i] && t[i + 1] == t0[i + 1]);
                        } else {
                            assert(t[i] == before);
                        }
                    }
                }
                continue;
            },
        };
        let options = collect_creature_targets(state, registry);
        if options.len() == 0 {
            decline_front(state, registry);
            proof {
                assert(entry_step(before, *state, *registry));
                let t0 = t;
                t = t.push(*state);
                assert forall|i: int| 0 <= i < t.len() - 1 implies entry_step(#[trigger] t[i], t[i + 1], *registry) by {
                    if i < t0.len() - 1 {
                        assert(t[i] == t0[i] && t[i + 1] == t0[i + 1]);
                    } else {
                        assert(t[i] == before);
                    }
                }
            }
            continue;
        }
        ask_copy_choice(state, controller, options, registry);
        proof {
            assert(entry_stop(before, *state, *registry));
            assert(run_trace(t, *old(state), *state, *registry));
        }
        break;
    }

}

/// Which creatures are targets reads only the objects.
proof fn lemma_targets_same(a: GameState, b: GameState, reg: CardRegistry, objs: Seq<GameObject>)
    requires
        b == (GameState { awaiting_action: b.awaiting_action, ..a }),
    ensures
        creature_targets(b, reg, objs) == creature_targets(a, reg, objs),
    decreases objs.len(),
{
    if objs.len() > 0 {
        lemma_targets_same(a, b, reg, objs.drop_last());
    }
}

/// The targets, in order, still naming a creature on the battlefield.
pub open spec fn live_targets(st: GameState, reg: CardRegistry, ts: Seq<Target>) -> Seq<Target>
    decreases ts.len(),
{
    if ts.len() == 0 {
        Seq::empty()
    } else {
        let r = live_targets(st, reg, ts.drop_last());
        match ts.last() {
            Target::Object(id) => if st.in_zone(id, Zone::Battlefield) && st.spec_card_types(id, &reg).contains(CardType::Creature) {
                r.push(ts.last())
            } else {
                r
            },
            _ => r,
        }
    }
}

/// The entry and the options of an enters-as-a-copy question being asked.
pub open spec fn copy_question(aw: Option<AwaitingAction>) -> Option<(ObjectId, Seq<Target>)> {
    match aw {
        Some(AwaitingAction::ResolutionChoice { choice, .. }) => match choice {
            ResolutionChoiceKind::ChooseTarget { options, effect, .. } => match effect {
                PendingEffect::EnterAsCopy { object } => Some((object, options@)),
                _ => None,
            },
            _ => None,
        },
        _ => None,
    }
}

/// The state with no question being asked.
pub open spec fn unasked(st: GameState) -> GameState {
    GameState { awaiting_action: None, ..st }
}

/// The same question with only its options narrowed to `live`.
pub open spec fn question_narrowed(a: Option<AwaitingAction>, b: Option<AwaitingAction>, live: Seq<Target>) -> bool {
    match (a, b) {
        (Some(AwaitingAction::ResolutionChoice { player, source, choice }),
            Some(AwaitingAction::ResolutionChoice { player: p2, source: s2, choice: c2 })) => match (choice, c2) {
            (ResolutionChoiceKind::ChooseTarget { description, optional, effect, .. },
                ResolutionChoiceKind::ChooseTarget { description: d2, options: o2, optional: op2, effect: e2 }) =>
                p2 == player && s2 == source && d2 == description && o2@ == live && op2 == optional && e2 == effect,
            _ => false,
        },
        _ => false,
    }
}

fn live_options(state: &GameState, registry: &CardRegistry, options: &Vec<Target>) -> (r: Vec<Target>)
    requires
        state.wf(),
    ensures
        r@ == live_targets(*state, *registry, options@),
{
    let mut live: Vec<Target> = Vec::new();
    let mut k: usize = 0;
    while k < options.len()
        invariant
            state.wf(),
            k <= options@.len(),
            live@ == live_targets(*state, *registry, options@.take(k as int)),
        decreases options@.len() - k,
    {
        proof {
            assert(options@.take(k + 1).drop_last() =~= options@.take(k as int));
        }
        match options[k] {
            Target::Object(id) => {
                let present = match state.get_object(id) {
                    Some(o) => o.zone == Zone::Battlefield,
                    None => false,
                };
                if present && state.is_creature(id, registry) {
                    live.push(options[k]);
                }
            },
            _ => {},
        }
        k = k + 1;
    }
    proof {
        assert(options@.take(k as int) =~= options@);
    }
    live
}

/// Keep an enters-as-a-copy question current: drop any option that is no
/// longer a creature on the battlefield (CR 608.2d), and when none is
/// left, make the entry as the permanent itself.
pub fn refresh_pending_entry_choice(state: &mut GameState, registry: &CardRegistry)
    requires
        old(state).wf(),
        match copy_question(old(state).awaiting_action) {
            Some(q) => entry_ok(*old(state), q.0, *registry),
            None => true,
        },
    ensures
        match copy_question(old(state).awaiting_action) {
            None => *final(state) == *old(state),
            Some(q) => {
                let live = live_targets(*old(state), *registry, q.1);
                if live.len() == q.1.len() {
                    *final(state) == *old(state)
                } else if live.len() == 0 {
                    exists|mid: GameState, r: bool| #[trigger] entry_completed(unasked(*old(state)),
                        mid, *final(state), q.0, EnterAsCopyChoice::Declined, *registry, r)
                } else {
                    &&& *final(state) == (GameState { awaiting_action: final(state).awaiting_action, ..*old(state) })
                    &&& question_narrowed(old(state).awaiting_action, final(state).awaiting_action, live)
                }
            },
        },
{
    let ghost st = *state;
    let aw = state.awaiting_action.take();
    match aw {
        Some(AwaitingAction::ResolutionChoice { player, source, choice }) => match choice {
            ResolutionChoiceKind::ChooseTarget { description, options, optional, effect } => match effect {
                PendingEffect::EnterAsCopy { object } => {
                    let live = live_options(state, registry, &options);
                    proof {
                        assert(live_targets(*state, *registry, options@) == live_targets(st, *registry, options@)) by {
                            lemma_live_same(st, *state, *registry, options@);
                        }
                    }
                    if live.len() == options.len() {
                        state.awaiting_action = Some(AwaitingAction::ResolutionChoice {
                            player,
                            source,
                            choice: ResolutionChoiceKind::ChooseTarget { description, options, optional, effect: PendingEffect::EnterAsCopy { object } },
                        });
                        return;
                    }
                    if live.len() == 0 {
                        proof {
                            assert(entry_ok(*state, object, *registry));
                        }
                        record_entry_choice(state, object, EnterAsCopyChoice::Declined, registry);
                        return;
                    }
                    state.awaiting_action = Some(AwaitingAction::ResolutionChoice {
                        player,
                        source,
                        choice: ResolutionChoiceKind::ChooseTarget { description, options: live, optional, effect: PendingEffect::EnterAsCopy { object } },
                    });
                },
                other => {
                    state.awaiting_action = Some(AwaitingAction::ResolutionChoice {
                        player,
                        source,
                        choice: ResolutionChoiceKind::ChooseTarget { description, options, optional, effect: other },
                    });
                },
            },
            other => {
                state.awaiting_action = Some(AwaitingAction::ResolutionChoice { player, source, choice: other });
            },
        },
        other => {
            state.awaiting_action = other;
        },
    }
}

/// Which options are live reads only the objects.
proof fn lemma_live_same(a: GameState, b: GameState, reg: CardRegistry, ts: Seq<Target>)
    requires
        b == (GameState { awaiting_action: b.awaiting_action, ..a }),
    ensures
        live_targets(b, reg, ts) == live_targets(a, reg, ts),
    decreases ts.len(),
{
    if ts.len() > 0 {
        lemma_live_same(a, b, reg, ts.drop_last());
    }
}
} // verus!
