//! Laws of the library: what holds across its operations, proved from
//! their contracts.

use vstd::prelude::*;
use crate::board::pt_set;
use crate::cards::{CardRegistry, ReplacementDef};
use crate::replacement::{candidates, fold_entering, fold_tokens, is_candidate, lemma_fold_keeps_object, EnteringView, Pass};
use crate::ids::CardId;
use crate::state::lemma_find_unique;
use crate::control::{
    after_expiry, control_gained, control_returns, effect_holds, effects_ended, effects_holding, latest_durable, latest_temporary, spec_base_controller, spec_derived_controller, without_effect,
};
use crate::effects::{eot_pt, latest_set, set_value};
use crate::events::GameEvent;
use crate::ids::{ObjectId, PlayerId};
use crate::objects::{counter_index, life_result, spec_add_counters, spec_counter, spec_remove_counters, tap_result, untap_result};
use crate::random::{spec_shuffle, spec_shuffle_from, spec_swap};
use crate::state::{ControlEffect, GameObject, GameState, LibraryPosition, SetPtEffect, TemporaryEffect};
use crate::zones::put_steps;
use crate::types::{CounterType, Zone};

verus! {

/// Untapping a permanent that tapping just tapped gives back the objects
/// as they were, with both changes announced in order.
pub proof fn law_tap_then_untap(s1: GameState, s2: GameState, s3: GameState, id: ObjectId)
    requires
        tap_result(s1, s2, id),
        untap_result(s2, s3, id),
        s1.in_zone(id, Zone::Battlefield),
        !s1.spec_obj(id).unwrap().tapped,
    ensures
        s3.objects@ == s1.objects@,
        s3.events@ == s1.events@.push(GameEvent::Tapped { object: id }).push(GameEvent::Untapped { object: id }),
        s3 == (GameState { objects: s3.objects, events: s3.events, ..s1 }),
{
    let i = s1.spec_index(id).unwrap();
    crate::state::lemma_find_from(s1.objects@, id, 0);
    assert forall|k: int| 0 <= k < s1.objects@.len() implies #[trigger] s1.objects@[k].id == s2.objects@[k].id by {}
    crate::state::lemma_find_same_ids(s1.objects@, s2.objects@, id, 0);
    assert(s3.objects@ =~= s1.objects@);
}

/// Losing the life just gained (or gaining the life just lost) gives back
/// the players as they were.
pub proof fn law_life_round_trip(s1: GameState, s2: GameState, s3: GameState, player: PlayerId, delta: int)
    requires
        0 <= player.0 < s1.players@.len(),
        i32::MIN <= s1.players@[player.0 as int].life + delta <= i32::MAX,
        life_result(s1, s2, player, delta),
        life_result(s2, s3, player, -delta),
    ensures
        s3.players@ == s1.players@,
{
    if delta != 0 {
        assert(s3.players@ =~= s1.players@);
    }
}

/// Each kind of counter has one entry at most, as adding and removing
/// keep it.
pub open spec fn kinds_distinct(c: Seq<(CounterType, u32)>) -> bool {
    forall|a: int, b: int| 0 <= a < b < c.len() ==> c[a].0 != c[b].0
}

/// Adding counters of a kind and then removing as many gives back that
/// kind's count; where there was no entry or a nonzero one, the counters
/// come back exactly.
pub proof fn law_counters_round_trip(c: Seq<(CounterType, u32)>, ct: CounterType, n: u32)
    requires
        spec_counter(c, ct) + n <= u32::MAX,
        kinds_distinct(c),
    ensures
        spec_counter(spec_remove_counters(spec_add_counters(c, ct, n), ct, n), ct) == spec_counter(c, ct),
        (counter_index(c, ct) is None || spec_counter(c, ct) > 0)
            ==> spec_remove_counters(spec_add_counters(c, ct, n), ct, n) == c,
{
    lemma_counter_index_facts(c, ct);
    match counter_index(c, ct) {
        Some(k) => {
            let a = c.update(k, (ct, (c[k].1 + n) as u32));
            lemma_index_after_update(c, ct, k, (ct, (c[k].1 + n) as u32));
            if c[k].1 == 0 {
                assert(a[k].1 <= n);
                let r = a.remove(k);
                lemma_counter_index_facts(r, ct);
                assert forall|m: int| 0 <= m < r.len() implies r[m].0 != ct by {
                    if m < k {
                        assert(r[m] == c[m]);
                    } else {
                        assert(r[m] == c[m + 1]);
                    }
                }
            } else {
                lemma_index_after_update(a, ct, k, (ct, c[k].1));
                assert(a.update(k, (ct, c[k].1)) =~= c);
            }
        },
        None => {
            let a = c.push((ct, n));
            lemma_index_after_push(c, ct, n);
            assert(a.remove(c.len() as int) =~= c);
        },
    }
}

/// The entry found for a kind is in range and of that kind; with none,
/// no entry is of that kind.
pub(crate) proof fn lemma_counter_index_facts(c: Seq<(CounterType, u32)>, ct: CounterType)
    ensures
        match counter_index(c, ct) {
            Some(k) => 0 <= k < c.len() && c[k].0 == ct && forall|m: int| 0 <= m < k ==> c[m].0 != ct,
            None => forall|m: int| 0 <= m < c.len() ==> c[m].0 != ct,
        },
    decreases c.len(),
{
    if c.len() > 0 {
        let d = c.drop_last();
        lemma_counter_index_facts(d, ct);
        assert forall|m: int| 0 <= m < d.len() implies d[m] == c[m] by {}
    }
}

/// The first entry of a kind is where it was after that entry changes.
proof fn lemma_index_after_update(c: Seq<(CounterType, u32)>, ct: CounterType, k: int, v: (CounterType, u32))
    requires
        counter_index(c, ct) == Some(k),
        v.0 == ct,
    ensures
        counter_index(c.update(k, v), ct) == Some(k),
{
    lemma_counter_index_facts(c, ct);
    lemma_counter_index_facts(c.update(k, v), ct);
    match counter_index(c.update(k, v), ct) {
        Some(j) => {
            if j < k {
                assert(c.update(k, v)[j] == c[j]);
            }
        },
        None => {
            assert(c.update(k, v)[k].0 == ct);
        },
    }
}

/// A new entry pushed is the first of its kind when there was none.
proof fn lemma_index_after_push(c: Seq<(CounterType, u32)>, ct: CounterType, n: u32)
    requires
        counter_index(c, ct) is None,
    ensures
        counter_index(c.push((ct, n)), ct) == Some(c.len() as int),
{
    assert(c.push((ct, n)).drop_last() =~= c);
}

/// Shuffling only exchanges elements: what a shuffle gives back holds
/// exactly the elements it was given, as often as it was given them.
pub proof fn law_shuffle_permutes<T>(s: Seq<T>, rng: u64)
    requires
        s.len() <= u64::MAX,
    ensures
        spec_shuffle(s, rng).0.to_multiset() == s.to_multiset(),
{
    lemma_shuffle_from_permutes(s, rng, s.len() - 1);
}

proof fn lemma_swap_permutes<T>(s: Seq<T>, i: int, j: int)
    requires
        0 <= i < s.len(),
        0 <= j < s.len(),
    ensures
        spec_swap(s, i, j).to_multiset() == s.to_multiset(),
{
    broadcast use vstd::seq_lib::to_multiset_update;
    broadcast use vstd::seq_lib::to_multiset_contains;
    broadcast use vstd::multiset::group_multiset_axioms;
    let s1 = s.update(i, s[j]);
    if i == j {
        assert(s1.update(j, s[i]) =~= s);
    } else {
        let m = s.to_multiset();
        assert(s.contains(s[i]));
        assert(m.count(s[i]) > 0);
        assert(s1[j] == s[j]);
        let m1 = m.insert(s[j]).remove(s[i]);
        assert(s1.to_multiset() == m1);
        assert(s1.update(j, s[i]).to_multiset() == m1.insert(s[i]).remove(s[j]));
        assert(m1.insert(s[i]).remove(s[j]) =~= m);
    }
}

proof fn lemma_shuffle_from_permutes<T>(s: Seq<T>, rng: u64, i: int)
    requires
        i < s.len(),
        s.len() <= u64::MAX,
    ensures
        spec_shuffle_from(s, rng, i).0.to_multiset() == s.to_multiset(),
    decreases i,
{
    if i >= 1 {
        let next = crate::random::spec_rng_step(rng);
        let m = (i + 1) as u64;
        assert(m as int == i + 1);
        let j = (crate::random::spec_rng_output(next) % m) as int;
        assert(0 <= j < i + 1);
        lemma_swap_permutes(s, i, j);
        assert(spec_swap(s, i, j).len() == s.len());
        lemma_shuffle_from_permutes(spec_swap(s, i, j), next, i - 1);
    }
}

/// With no control-changing effect on it, a permanent is controlled by
/// the player who put it onto the battlefield (CR 110.2a, 613.7a).
pub proof fn law_default_controller(st: GameState, object: ObjectId)
    requires
        forall|k: int| 0 <= k < st.control_effects@.len() ==> (#[trigger] st.control_effects@[k]).object != object,
        forall|k: int| 0 <= k < st.until_end_of_turn@.len() ==>
            !(#[trigger] st.until_end_of_turn@[k] matches TemporaryEffect::ChangeControl { target, .. } && target == object),
    ensures
        spec_derived_controller(st, object) == spec_base_controller(st, object),
{
    lemma_no_durable(st.control_effects@, object);
    lemma_no_temporary(st.until_end_of_turn@, object);
}

proof fn lemma_no_durable(effs: Seq<ControlEffect>, object: ObjectId)
    requires
        forall|k: int| 0 <= k < effs.len() ==> (#[trigger] effs[k]).object != object,
    ensures
        latest_durable(effs, object) is None,
    decreases effs.len(),
{
    if effs.len() > 0 {
        assert(effs.last() == effs[effs.len() - 1]);
        lemma_no_durable(effs.drop_last(), object);
    }
}

proof fn lemma_no_temporary(effs: Seq<TemporaryEffect>, object: ObjectId)
    requires
        forall|k: int| 0 <= k < effs.len() ==>
            !(#[trigger] effs[k] matches TemporaryEffect::ChangeControl { target, .. } && target == object),
    ensures
        latest_temporary(None, effs, object) is None,
    decreases effs.len(),
{
    if effs.len() > 0 {
        assert(effs.last() == effs[effs.len() - 1]);
        lemma_no_temporary(effs.drop_last(), object);
    }
}


/// Every timestamp an effect in force carries was handed out already: none
/// is past the state's last one (CR 613.7a).
pub open spec fn timestamps_issued(st: GameState) -> bool {
    &&& forall|k: int| 0 <= k < st.set_pt_effects@.len()
        ==> (#[trigger] st.set_pt_effects@[k]).timestamp <= st.next_effect_timestamp
    &&& forall|k: int| 0 <= k < st.control_effects@.len()
        ==> (#[trigger] st.control_effects@[k]).timestamp <= st.next_effect_timestamp
    &&& forall|k: int| 0 <= k < st.until_end_of_turn@.len() ==>
        (#[trigger] st.until_end_of_turn@[k] matches TemporaryEffect::ChangeControl { timestamp, .. }
            ==> timestamp <= st.next_effect_timestamp)
}

/// Setting base power and toughness makes the values just set the ones in
/// force, the latest timestamp winning (CR 613.4b, 613.7a); a side left
/// unset keeps the value it had. Every timestamp stays one handed out.
pub proof fn law_set_pt_latest_wins(s1: GameState, s2: GameState, object: ObjectId, power: Option<i32>, toughness: Option<i32>)
    requires
        timestamps_issued(s1),
        pt_set(s1, s2, object, power, toughness),
    ensures
        set_value(s2.set_pt_effects@, object, true) == (match power {
            Some(p) => Some(p),
            None => set_value(s1.set_pt_effects@, object, true),
        }),
        set_value(s2.set_pt_effects@, object, false) == (match toughness {
            Some(t) => Some(t),
            None => set_value(s1.set_pt_effects@, object, false),
        }),
        timestamps_issued(s2),
{
    let es = s1.set_pt_effects@;
    assert(s2.set_pt_effects@.drop_last() =~= es);
    lemma_latest_set_bound(es, object, true, s1.next_effect_timestamp);
    lemma_latest_set_bound(es, object, false, s1.next_effect_timestamp);
    assert forall|k: int| 0 <= k < s2.set_pt_effects@.len()
        implies (#[trigger] s2.set_pt_effects@[k]).timestamp <= s2.next_effect_timestamp by {
        if k < es.len() {
            assert(s2.set_pt_effects@[k] == es[k]);
        }
    }
}

/// The latest layer-7b value found carries one of the effects' timestamps.
proof fn lemma_latest_set_bound(es: Seq<SetPtEffect>, obj: ObjectId, power: bool, bound: u64)
    requires
        forall|k: int| 0 <= k < es.len() ==> (#[trigger] es[k]).timestamp <= bound,
    ensures
        latest_set(es, obj, power) matches Some(p) ==> p.0 <= bound,
    decreases es.len(),
{
    if es.len() > 0 {
        assert(es.last() == es[es.len() - 1]);
        lemma_latest_set_bound(es.drop_last(), obj, power, bound);
    }
}

/// Gaining control of a permanent for as long as a source's controller
/// controls that source makes that player its controller: the new effect
/// is the latest in force (CR 613.7a). Every timestamp stays one handed
/// out.
pub proof fn law_gain_control_takes_effect(s1: GameState, s2: GameState, object: ObjectId, source: ObjectId)
    requires
        timestamps_issued(s1),
        s1.next_effect_timestamp < u64::MAX,
        s1.spec_obj(source) is Some,
        s1.spec_obj(object) is Some,
        control_gained(s1, s2, object, source),
    ensures
        spec_derived_controller(s2, object) == Some(s1.spec_obj(source).unwrap().controller),
        s2.spec_obj(object) matches Some(o) && o.controller == s1.spec_obj(source).unwrap().controller,
        timestamps_issued(s2),
{
    let c = s1.spec_obj(source).unwrap().controller;
    let t = (s1.next_effect_timestamp + 1) as u64;
    let mid = crate::control::with_effects(s1, s2.control_effects, t);
    let kept = without_effect(s1.control_effects@, object, source);
    lemma_without_effect_bound(s1.control_effects@, object, source, s1.next_effect_timestamp);
    lemma_no_durable_bound(kept, object, s1.next_effect_timestamp);
    assert(mid.control_effects@.drop_last() =~= kept);
    assert(latest_durable(mid.control_effects@, object) == Some((t, c)));
    lemma_temporary_keeps(Some((t, c)), s1.until_end_of_turn@, object);
    assert(spec_derived_controller(mid, object) == Some(c));
    let i = s1.spec_index(object).unwrap();
    crate::state::lemma_find_from(s1.objects@, object, 0);
    if s1.objects@[i].controller != c {
        assert forall|k: int| 0 <= k < s1.objects@.len() implies #[trigger] s1.objects@[k].id == s2.objects@[k].id by {}
        crate::state::lemma_find_same_ids(s1.objects@, s2.objects@, object, 0);
    }
    assert forall|k: int| 0 <= k < s2.control_effects@.len()
        implies (#[trigger] s2.control_effects@[k]).timestamp <= s2.next_effect_timestamp by {
        if k < kept.len() {
            assert(s2.control_effects@[k] == kept[k]);
        }
    }
}

/// Dropping effects keeps every timestamp within a bound.
proof fn lemma_without_effect_bound(effs: Seq<ControlEffect>, object: ObjectId, source: ObjectId, bound: u64)
    requires
        forall|k: int| 0 <= k < effs.len() ==> (#[trigger] effs[k]).timestamp <= bound,
    ensures
        forall|k: int| 0 <= k < without_effect(effs, object, source).len()
            ==> (#[trigger] without_effect(effs, object, source)[k]).timestamp <= bound,
    decreases effs.len(),
{
    if effs.len() > 0 {
        let d = effs.drop_last();
        assert forall|k: int| 0 <= k < d.len() implies (#[trigger] d[k]).timestamp <= bound by {
            assert(d[k] == effs[k]);
        }
        lemma_without_effect_bound(d, object, source, bound);
        assert(effs.last() == effs[effs.len() - 1]);
        let r = without_effect(d, object, source);
        let w = without_effect(effs, object, source);
        assert forall|k: int| 0 <= k < w.len() implies (#[trigger] w[k]).timestamp <= bound by {
            if k < r.len() {
                assert(w[k] == r[k]);
            }
        }
    }
}

/// The latest durable effect found carries one of the effects' timestamps.
proof fn lemma_no_durable_bound(effs: Seq<ControlEffect>, object: ObjectId, bound: u64)
    requires
        forall|k: int| 0 <= k < effs.len() ==> (#[trigger] effs[k]).timestamp <= bound,
    ensures
        latest_durable(effs, object) matches Some(p) ==> p.0 <= bound,
    decreases effs.len(),
{
    if effs.len() > 0 {
        let d = effs.drop_last();
        assert forall|k: int| 0 <= k < d.len() implies (#[trigger] d[k]).timestamp <= bound by {
            assert(d[k] == effs[k]);
        }
        assert(effs.last() == effs[effs.len() - 1]);
        lemma_no_durable_bound(d, object, bound);
    }
}

/// An until-end-of-turn control change older than the effect found so far
/// does not displace it.
proof fn lemma_temporary_keeps(start: Option<(u64, PlayerId)>, effs: Seq<TemporaryEffect>, object: ObjectId)
    requires
        start matches Some(p) && forall|k: int| 0 <= k < effs.len() ==>
            (#[trigger] effs[k] matches TemporaryEffect::ChangeControl { timestamp, .. } ==> timestamp < p.0),
    ensures
        latest_temporary(start, effs, object) == start,
    decreases effs.len(),
{
    if effs.len() > 0 {
        let d = effs.drop_last();
        assert forall|k: int| 0 <= k < d.len() implies
            (#[trigger] d[k] matches TemporaryEffect::ChangeControl { timestamp, .. } ==> timestamp < start.unwrap().0) by {
            assert(d[k] == effs[k]);
        }
        lemma_temporary_keeps(start, d, object);
        assert(effs.last() == effs[effs.len() - 1]);
    }
}

/// A card put on top of its owner's library becomes that library's top card
/// (the next one drawn), and one put at the bottom becomes its last card;
/// the cards that were already there keep their order, and no other
/// player's library changes.
pub proof fn law_put_into_library_position(st: GameState, mid: GameState, fin: GameState, id: ObjectId,
    position: LibraryPosition, reg: CardRegistry)
    requires
        st.spec_obj(id) is Some,
        put_steps(st, mid, fin, id, position, reg),
    ensures
        ({
            let owner = st.spec_obj(id).unwrap().owner.0 as int;
            let before = mid.players@[owner].library_order@;
            let after = fin.players@[owner].library_order@;
            &&& after.len() == before.len() + 1
            &&& position == LibraryPosition::Top ==> after[0] == id && after.subrange(1, after.len() as int) == before
            &&& position == LibraryPosition::Bottom ==> after[after.len() - 1] == id && after.subrange(0, before.len() as int) == before
            &&& forall|p: int| 0 <= p < fin.players@.len() && p != owner ==>
                #[trigger] fin.players@[p].library_order == mid.players@[p].library_order
        }),
{
    let owner = st.spec_obj(id).unwrap().owner.0 as int;
    let before = mid.players@[owner].library_order@;
    let after = fin.players@[owner].library_order@;
    match position {
        LibraryPosition::Top => {
            assert(after.subrange(1, after.len() as int) =~= before);
        },
        LibraryPosition::Bottom => {
            assert(after.subrange(0, before.len() as int) =~= before);
        },
    }
}

/// After control effects expire, every control effect left has its source
/// on the battlefield under the player who gained control through it; an
/// effect whose source has left the battlefield, or has changed hands, is
/// gone and counts as one that ended.
pub proof fn law_expired_control_effects_gone(a: GameState, b: GameState, r: bool)
    requires
        r == (effects_ended(a, a.control_effects@).len() > 0),
        !r ==> b == a,
        r ==> b.control_effects@ == effects_holding(a, a.control_effects@),
    ensures
        forall|k: int| 0 <= k < b.control_effects@.len() ==> {
            let e = #[trigger] b.control_effects@[k];
            a.spec_obj(e.source) matches Some(s) && s.zone == Zone::Battlefield && s.controller == e.source_controller
        },
        forall|e: ControlEffect| #[trigger] a.control_effects@.contains(e) &&
            !(a.spec_obj(e.source) matches Some(s) && s.zone == Zone::Battlefield && s.controller == e.source_controller)
            ==> r && !b.control_effects@.contains(e),
{
    let effs = a.control_effects@;
    lemma_holding_hold(a, effs);
    lemma_ended_covers(a, effs);
    assert forall|e: ControlEffect| #[trigger] effs.contains(e) &&
        !(a.spec_obj(e.source) matches Some(s) && s.zone == Zone::Battlefield && s.controller == e.source_controller)
        implies r && !b.control_effects@.contains(e) by {
        let k = choose|k: int| 0 <= k < effs.len() && effs[k] == e;
        assert(!effect_holds(a, effs[k]));
        if !r {
            assert(effs.contains(effs[k]));
        }
        if b.control_effects@.contains(e) {
            let j = choose|j: int| 0 <= j < b.control_effects@.len() && b.control_effects@[j] == e;
            assert(effect_holds(a, effects_holding(a, effs)[j]));
        }
    }
    if !r {
        assert forall|k: int| 0 <= k < effs.len() implies effect_holds(a, #[trigger] effs[k]) by {
            assert(effs.contains(effs[k]));
        }
    }
}

/// Every effect kept holds.
proof fn lemma_holding_hold(st: GameState, effs: Seq<ControlEffect>)
    ensures
        forall|k: int| 0 <= k < effects_holding(st, effs).len() ==> effect_holds(st, #[trigger] effects_holding(st, effs)[k]),
    decreases effs.len(),
{
    if effs.len() > 0 {
        let d = effs.drop_last();
        lemma_holding_hold(st, d);
        let r = effects_holding(st, d);
        if effect_holds(st, effs.last()) {
            assert forall|k: int| 0 <= k < r.push(effs.last()).len() implies
                effect_holds(st, #[trigger] r.push(effs.last())[k]) by {
                if k < r.len() {
                    assert(r.push(effs.last())[k] == r[k]);
                }
            }
        }
    }
}

/// An effect that no longer holds is among those that ended.
proof fn lemma_ended_covers(st: GameState, effs: Seq<ControlEffect>)
    ensures
        forall|e: ControlEffect| #[trigger] effs.contains(e) && !effect_holds(st, e) ==> effects_ended(st, effs).contains(e),
    decreases effs.len(),
{
    if effs.len() > 0 {
        let d = effs.drop_last();
        lemma_ended_covers(st, d);
        let r = effects_ended(st, d);
        assert forall|e: ControlEffect| #[trigger] effs.contains(e) && !effect_holds(st, e) implies
            effects_ended(st, effs).contains(e) by {
            let k = choose|k: int| 0 <= k < effs.len() && effs[k] == e;
            if k < effs.len() - 1 {
                assert(d[k] == e);
                assert(d.contains(e));
                let j = choose|j: int| 0 <= j < r.len() && r[j] == e;
                if !effect_holds(st, effs.last()) {
                    assert(r.push(effs.last())[j] == e);
                }
            } else {
                assert(effs.last() == e);
                assert(r.push(e)[r.len() as int] == e);
            }
        }
    }
}

/// An effect that still holds is among those kept.
proof fn lemma_holding_covers(st: GameState, effs: Seq<ControlEffect>)
    ensures
        forall|e: ControlEffect| #[trigger] effs.contains(e) && effect_holds(st, e) ==> effects_holding(st, effs).contains(e),
    decreases effs.len(),
{
    if effs.len() > 0 {
        let d = effs.drop_last();
        lemma_holding_covers(st, d);
        let r = effects_holding(st, d);
        assert forall|e: ControlEffect| #[trigger] effs.contains(e) && effect_holds(st, e) implies
            effects_holding(st, effs).contains(e) by {
            let k = choose|k: int| 0 <= k < effs.len() && effs[k] == e;
            if k < effs.len() - 1 {
                assert(d[k] == e);
                assert(d.contains(e));
                let j = choose|j: int| 0 <= j < r.len() && r[j] == e;
                if effect_holds(st, effs.last()) {
                    assert(r.push(effs.last())[j] == e);
                }
            } else {
                assert(effs.last() == e);
                assert(r.push(e)[r.len() as int] == e);
            }
        }
    }
}

/// Expiry keeps every control effect whose source is still on the
/// battlefield under the player who gained control through it; and a
/// permanent on the battlefield that an effect which ended was on goes to
/// the player that the effects left make its controller.
pub proof fn law_expiry_keeps_and_returns(a: GameState, b: GameState, r: bool)
    requires
        r == (effects_ended(a, a.control_effects@).len() > 0),
        !r ==> b == a,
        r ==> b.control_effects@ == effects_holding(a, a.control_effects@),
        r ==> b.objects@.len() == a.objects@.len(),
        r ==> forall|k: int| 0 <= k < a.objects@.len() ==>
            #[trigger] b.objects@[k] == after_expiry(a, GameState { control_effects: b.control_effects, ..a }, a.objects@[k]),
    ensures
        forall|e: ControlEffect| #[trigger] a.control_effects@.contains(e)
            && (a.spec_obj(e.source) matches Some(s) && s.zone == Zone::Battlefield && s.controller == e.source_controller)
            ==> b.control_effects@.contains(e),
        forall|k: int, e: ControlEffect| 0 <= k < a.objects@.len() && a.objects@[k].zone == Zone::Battlefield
            && #[trigger] a.control_effects@.contains(e) && e.object == #[trigger] a.objects@[k].id
            && !(a.spec_obj(e.source) matches Some(s) && s.zone == Zone::Battlefield && s.controller == e.source_controller)
            && spec_derived_controller(GameState { control_effects: b.control_effects, ..a }, e.object) is Some
            ==> r && b.objects@[k].controller
                == spec_derived_controller(GameState { control_effects: b.control_effects, ..a }, e.object).unwrap(),
{
    let effs = a.control_effects@;
    lemma_holding_covers(a, effs);
    lemma_ended_covers(a, effs);
    let mid = GameState { control_effects: b.control_effects, ..a };
    assert forall|k: int, e: ControlEffect| 0 <= k < a.objects@.len() && a.objects@[k].zone == Zone::Battlefield
        && #[trigger] a.control_effects@.contains(e) && e.object == #[trigger] a.objects@[k].id
        && !(a.spec_obj(e.source) matches Some(s) && s.zone == Zone::Battlefield && s.controller == e.source_controller)
        && spec_derived_controller(mid, e.object) is Some
        implies r && b.objects@[k].controller == spec_derived_controller(mid, e.object).unwrap() by {
        assert(!effect_holds(a, e));
        let ended = effects_ended(a, effs);
        assert(ended.contains(e));
        let q = choose|q: int| 0 <= q < ended.len() && ended[q] == e;
        assert(ended[q].object == a.objects@[k].id);
        assert(control_returns(a, a.objects@[k].id));
        assert(b.objects@[k] == after_expiry(a, mid, a.objects@[k]));
    }
}


/// A token doubler only doubles the tokens of the player who controls it:
/// where no permanent with a token-doubling replacement that is in force
/// is controlled by the event's controller, the number of tokens comes
/// back unchanged. Where one is, a positive number below the maximum comes
/// back larger, and no replacement ever lowers it.
pub proof fn law_token_doubling_needs_controller(st: GameState, reg: CardRegistry, controller: PlayerId, count: u32)
    requires
        st.wf(),
    ensures
        fold_tokens(st, candidates(st.objects@, reg), reg, controller, count) >= count,
        (forall|i: int| 0 <= i < st.objects@.len() ==> {
            let o = #[trigger] st.objects@[i];
            !(is_candidate(o, reg) && reg.spec_get(o.card_id).unwrap().replacement == Some(ReplacementDef::DoublesTokens)
                && o.controller == controller)
        }) ==> fold_tokens(st, candidates(st.objects@, reg), reg, controller, count) == count,
        (exists|i: int| 0 <= i < st.objects@.len() && {
            let o = #[trigger] st.objects@[i];
            is_candidate(o, reg) && reg.spec_get(o.card_id).unwrap().replacement == Some(ReplacementDef::DoublesTokens)
                && o.controller == controller
        }) && 0 < count < u32::MAX ==> fold_tokens(st, candidates(st.objects@, reg), reg, controller, count) > count,
{
    let n = st.objects@.len() as int;
    assert(st.objects@.take(n) =~= st.objects@);
    lemma_tokens_prefix(st, reg, controller, count, n);
}

/// The token count over the candidates among the first `n` objects.
proof fn lemma_tokens_prefix(st: GameState, reg: CardRegistry, controller: PlayerId, count: u32, n: int)
    requires
        st.wf(),
        0 <= n <= st.objects@.len(),
    ensures
        fold_tokens(st, candidates(st.objects@.take(n), reg), reg, controller, count) >= count,
        (forall|i: int| 0 <= i < n ==> {
            let o = #[trigger] st.objects@[i];
            !(is_candidate(o, reg) && reg.spec_get(o.card_id).unwrap().replacement == Some(ReplacementDef::DoublesTokens)
                && o.controller == controller)
        }) ==> fold_tokens(st, candidates(st.objects@.take(n), reg), reg, controller, count) == count,
        (exists|i: int| 0 <= i < n && {
            let o = #[trigger] st.objects@[i];
            is_candidate(o, reg) && reg.spec_get(o.card_id).unwrap().replacement == Some(ReplacementDef::DoublesTokens)
                && o.controller == controller
        }) && 0 < count < u32::MAX ==> fold_tokens(st, candidates(st.objects@.take(n), reg), reg, controller, count) > count,
    decreases n,
{
    if n > 0 {
        let objs = st.objects@.take(n);
        assert(objs.drop_last() =~= st.objects@.take(n - 1));
        lemma_tokens_prefix(st, reg, controller, count, n - 1);
        let o = st.objects@[n - 1];
        assert(objs.last() == o);
        let prior = candidates(st.objects@.take(n - 1), reg);
        let p = fold_tokens(st, prior, reg, controller, count);
        if is_candidate(o, reg) {
            let cs = prior.push((o.id, o.card_id));
            assert(cs.drop_last() =~= prior);
            lemma_find_unique(st.objects@, st.next_object_id, o.id, n - 1);
            assert(st.spec_obj(o.id) == Some(o));
            let f = fold_tokens(st, cs, reg, controller, count);
            assert(f >= p);
            if reg.spec_get(o.card_id).unwrap().replacement == Some(ReplacementDef::DoublesTokens) && o.controller == controller {
                assert(f >= p && (f == u32::MAX || f == 2 * p));
            }
        }
        if exists|i: int| 0 <= i < n - 1 && {
            let o = #[trigger] st.objects@[i];
            is_candidate(o, reg) && reg.spec_get(o.card_id).unwrap().replacement == Some(ReplacementDef::DoublesTokens)
                && o.controller == controller
        } {
        }
    }
}

/// An until-end-of-turn P/T change counts only for its target: adding one
/// raises the target's until-end-of-turn bonus by its amount and leaves
/// every other object's bonus as it was.
pub proof fn law_eot_pump_only_target(st: GameState, t: Seq<TemporaryEffect>, target: ObjectId, power_mod: i32,
    toughness_mod: i32, id: ObjectId)
    ensures
        eot_pt(st, t.push(TemporaryEffect::ModifyPT { target, power_mod, toughness_mod }), id, true)
            == eot_pt(st, t, id, true) + (if id == target { power_mod as int } else { 0 }),
        eot_pt(st, t.push(TemporaryEffect::ModifyPT { target, power_mod, toughness_mod }), id, false)
            == eot_pt(st, t, id, false) + (if id == target { toughness_mod as int } else { 0 }),
{
    let t2 = t.push(TemporaryEffect::ModifyPT { target, power_mod, toughness_mod });
    assert(t2.drop_last() =~= t);
}

/// The permanents among `objs` whose token-doubling replacement is in
/// force and that `controller` controls.
pub open spec fn doublers_of(objs: Seq<GameObject>, reg: CardRegistry, controller: PlayerId) -> nat
    decreases objs.len(),
{
    if objs.len() == 0 {
        0
    } else {
        let o = objs.last();
        doublers_of(objs.drop_last(), reg, controller) + if is_candidate(o, reg)
            && reg.spec_get(o.card_id).unwrap().replacement == Some(ReplacementDef::DoublesTokens) && o.controller == controller {
            1nat
        } else {
            0nat
        }
    }
}

/// `count` doubled `k` times, stopping at the largest count there is.
pub open spec fn doubled_times(count: u32, k: nat) -> u32
    decreases k,
{
    if k == 0 {
        count
    } else {
        let p = doubled_times(count, (k - 1) as nat);
        if p as int * 2 > u32::MAX { u32::MAX } else { (p * 2) as u32 }
    }
}

/// Each token doubler that the event's controller controls doubles the
/// number of tokens once (up to the largest count there is); no other
/// permanent changes it.
pub proof fn law_tokens_doubled_per_doubler(st: GameState, reg: CardRegistry, controller: PlayerId, count: u32)
    requires
        st.wf(),
    ensures
        fold_tokens(st, candidates(st.objects@, reg), reg, controller, count)
            == doubled_times(count, doublers_of(st.objects@, reg, controller)),
{
    let n = st.objects@.len() as int;
    assert(st.objects@.take(n) =~= st.objects@);
    lemma_tokens_doubled_prefix(st, reg, controller, count, n);
}

proof fn lemma_tokens_doubled_prefix(st: GameState, reg: CardRegistry, controller: PlayerId, count: u32, n: int)
    requires
        st.wf(),
        0 <= n <= st.objects@.len(),
    ensures
        fold_tokens(st, candidates(st.objects@.take(n), reg), reg, controller, count)
            == doubled_times(count, doublers_of(st.objects@.take(n), reg, controller)),
    decreases n,
{
    if n > 0 {
        let objs = st.objects@.take(n);
        assert(objs.drop_last() =~= st.objects@.take(n - 1));
        lemma_tokens_doubled_prefix(st, reg, controller, count, n - 1);
        let o = st.objects@[n - 1];
        assert(objs.last() == o);
        let prior = candidates(st.objects@.take(n - 1), reg);
        if is_candidate(o, reg) {
            let cs = prior.push((o.id, o.card_id));
            assert(cs.drop_last() =~= prior);
            lemma_find_unique(st.objects@, st.next_object_id, o.id, n - 1);
            assert(st.spec_obj(o.id) == Some(o));
        }
    }
}

/// How a permanent enters is changed only by replacement effects that work
/// for that permanent itself: with none among the effects offered, it
/// enters as it was going to.
pub proof fn law_entering_changed_only_by_own(st: GameState, cs: Seq<(ObjectId, CardId)>, reg: CardRegistry,
    e: EnteringView, pass: Pass)
    requires
        forall|k: int| 0 <= k < cs.len() ==> (#[trigger] cs[k]).0 != e.object,
    ensures
        fold_entering(st, cs, reg, e, pass) == e,
    decreases cs.len(),
{
    if cs.len() > 0 {
        let d = cs.drop_last();
        assert forall|k: int| 0 <= k < d.len() implies (#[trigger] d[k]).0 != e.object by {
            assert(d[k] == cs[k]);
        }
        law_entering_changed_only_by_own(st, d, reg, e, pass);
        assert(cs.last() == cs[cs.len() - 1]);
    }
}

/// A permanent that was entering tapped still enters tapped, and one whose
/// own "enters tapped" effect is offered, in a pass that is not only the
/// copy decision, enters tapped.
pub proof fn law_enters_tapped(st: GameState, cs: Seq<(ObjectId, CardId)>, reg: CardRegistry, e: EnteringView, pass: Pass)
    ensures
        e.tapped ==> fold_entering(st, cs, reg, e, pass).tapped,
        pass != Pass::CopyOnly && (exists|k: int| 0 <= k < cs.len() && (#[trigger] cs[k]).0 == e.object
            && reg.spec_get(cs[k].1) is Some
            && reg.spec_get(cs[k].1).unwrap().replacement == Some(ReplacementDef::EntersTapped))
            ==> fold_entering(st, cs, reg, e, pass).tapped,
    decreases cs.len(),
{
    if cs.len() > 0 {
        let d = cs.drop_last();
        law_enters_tapped(st, d, reg, e, pass);
        lemma_fold_keeps_object(st, d, reg, e, pass);
        if exists|k: int| 0 <= k < d.len() && (#[trigger] d[k]).0 == e.object
            && reg.spec_get(d[k].1) is Some
            && reg.spec_get(d[k].1).unwrap().replacement == Some(ReplacementDef::EntersTapped) {
            let k = choose|k: int| 0 <= k < d.len() && (#[trigger] d[k]).0 == e.object
                && reg.spec_get(d[k].1) is Some
                && reg.spec_get(d[k].1).unwrap().replacement == Some(ReplacementDef::EntersTapped);
            assert(cs[k] == d[k]);
        }
        if pass != Pass::CopyOnly && (exists|k: int| 0 <= k < cs.len() && (#[trigger] cs[k]).0 == e.object
            && reg.spec_get(cs[k].1) is Some
            && reg.spec_get(cs[k].1).unwrap().replacement == Some(ReplacementDef::EntersTapped)) {
            let k = choose|k: int| 0 <= k < cs.len() && (#[trigger] cs[k]).0 == e.object
                && reg.spec_get(cs[k].1) is Some
                && reg.spec_get(cs[k].1).unwrap().replacement == Some(ReplacementDef::EntersTapped);
            if k < d.len() {
                assert(d[k] == cs[k]);
            }
        }
        assert(cs.last() == cs[cs.len() - 1]);
    }
}

} // verus!
