//! Control-changing effects (CR 611.2b, 613.7a): who controls a permanent
//! is re-derived from every effect in force, the latest one winning.

use vstd::prelude::*;
use crate::cards::CardRegistry;
use crate::ids::{ObjectId, PlayerId};
use crate::objects::{control_given, logged, spec_obj_name};
use crate::state::{ControlEffect, GameObject, GameState, LogEntry, LogLevel, TemporaryEffect};
use crate::text::{decimal, spec_decimal};
use crate::types::Zone;
use crate::zones::log_grew;

verus! {

/// The later of a candidate and the best so far: a later timestamp wins,
/// and of equal ones the one seen last.
pub open spec fn later(best: Option<(u64, PlayerId)>, t: u64, c: PlayerId) -> Option<(u64, PlayerId)> {
    match best {
        Some(b) => if t >= b.0 { Some((t, c)) } else { best },
        None => Some((t, c)),
    }
}

/// The latest "for as long as" control effect on `object`, as (timestamp,
/// controller).
pub open spec fn latest_durable(effs: Seq<ControlEffect>, object: ObjectId) -> Option<(u64, PlayerId)>
    decreases effs.len(),
{
    if effs.len() == 0 {
        None
    } else {
        let b = latest_durable(effs.drop_last(), object);
        let e = effs.last();
        if e.object == object { later(b, e.timestamp, e.controller) } else { b }
    }
}

/// The latest of `start` and the until-end-of-turn control changes of
/// `object`, the later-listed winning a tie.
pub open spec fn latest_temporary(start: Option<(u64, PlayerId)>, effs: Seq<TemporaryEffect>, object: ObjectId) -> Option<(u64, PlayerId)>
    decreases effs.len(),
{
    if effs.len() == 0 {
        start
    } else {
        let b = latest_temporary(start, effs.drop_last(), object);
        match effs.last() {
            TemporaryEffect::ChangeControl { target, controller, timestamp } =>
                if target == object { later(b, timestamp, controller) } else { b },
            _ => b,
        }
    }
}

/// The default controller: the player who put the permanent onto the
/// battlefield (CR 110.2a).
pub open spec fn spec_base_controller(st: GameState, object: ObjectId) -> Option<PlayerId> {
    match st.spec_obj(object) {
        Some(o) => Some(o.base_controller),
        None => None,
    }
}

/// Who controls `object` by the control effects in force: the latest
/// (durable ones first, then until-end-of-turn ones), else its default
/// controller.
pub open spec fn spec_derived_controller(st: GameState, object: ObjectId) -> Option<PlayerId> {
    match latest_temporary(latest_durable(st.control_effects@, object), st.until_end_of_turn@, object) {
        Some(b) => Some(b.1),
        None => spec_base_controller(st, object),
    }
}

impl GameState {
    /// Take the next control-effect timestamp (CR 613.7a).
    pub fn next_control_timestamp(&mut self) -> (t: u64)
        requires
            old(self).next_effect_timestamp < u64::MAX,
        ensures
            t == old(self).next_effect_timestamp + 1,
            *final(self) == (GameState { next_effect_timestamp: t, ..*old(self) }),
    {
        self.next_effect_timestamp = self.next_effect_timestamp + 1;
        self.next_effect_timestamp
    }

    /// Who a permanent goes back to once every control-changing effect on
    /// it has ended: the player who put it onto the battlefield.
    pub fn base_controller(&self, object: ObjectId) -> (r: Option<PlayerId>)
        ensures
            r == spec_base_controller(*self, object),
    {
        match self.get_object(object) {
            Some(o) => Some(o.base_controller),
            None => None,
        }
    }

    /// Who controls `object` according to the control-changing effects in
    /// force: the latest-timestamped one that applies, or its default
    /// controller when none does.
    pub fn derived_controller(&self, object: ObjectId) -> (r: Option<PlayerId>)
        ensures
            r == spec_derived_controller(*self, object),
    {
        let mut best: Option<(u64, PlayerId)> = None;
        let mut i: usize = 0;
        while i < self.control_effects.len()
            invariant
                i <= self.control_effects@.len(),
                best == latest_durable(self.control_effects@.take(i as int), object),
            decreases self.control_effects@.len() - i,
        {
            proof {
                assert(self.control_effects@.take(i + 1).drop_last() =~= self.control_effects@.take(i as int));
            }
            let e = self.control_effects[i];
            if e.object == object {
                best = match best {
                    Some(b) => if e.timestamp >= b.0 { Some((e.timestamp, e.controller)) } else { best },
                    None => Some((e.timestamp, e.controller)),
                };
            }
            i = i + 1;
        }
        proof {
            assert(self.control_effects@.take(i as int) =~= self.control_effects@);
        }
        let ghost durable = best;
        let mut j: usize = 0;
        while j < self.until_end_of_turn.len()
            invariant
                j <= self.until_end_of_turn@.len(),
                best == latest_temporary(durable, self.until_end_of_turn@.take(j as int), object),
            decreases self.until_end_of_turn@.len() - j,
        {
            proof {
                assert(self.until_end_of_turn@.take(j + 1).drop_last() =~= self.until_end_of_turn@.take(j as int));
            }
            match &self.until_end_of_turn[j] {
                TemporaryEffect::ChangeControl { target, controller, timestamp } => {
                    if *target == object {
                        best = match best {
                            Some(b) => if *timestamp >= b.0 { Some((*timestamp, *controller)) } else { best },
                            None => Some((*timestamp, *controller)),
                        };
                    }
                },
                _ => {},
            }
            j = j + 1;
        }
        proof {
            assert(self.until_end_of_turn@.take(j as int) =~= self.until_end_of_turn@);
        }
        match best {
            Some(b) => Some(b.1),
            None => self.base_controller(object),
        }
    }
}


/// The effects, in order, without those `source` made on `object`.
pub open spec fn without_effect(effs: Seq<ControlEffect>, object: ObjectId, source: ObjectId) -> Seq<ControlEffect>
    decreases effs.len(),
{
    if effs.len() == 0 {
        effs
    } else {
        let r = without_effect(effs.drop_last(), object, source);
        let e = effs.last();
        if e.object == object && e.source == source { r } else { r.push(e) }
    }
}

/// The state with its control effects and timestamp replaced, nothing else.
pub open spec fn with_effects(st: GameState, effs: Vec<ControlEffect>, t: u64) -> GameState {
    GameState { control_effects: effs, next_effect_timestamp: t, ..st }
}

/// Control of `object` gained for as long as `source`'s controller
/// controls `source`: the effect recorded with the next timestamp in place
/// of an earlier one of the same source on the same object, and the
/// object given to whoever the effects in force now name. With either
/// object gone, nothing changes.
pub open spec fn control_gained(a: GameState, b: GameState, object: ObjectId, source: ObjectId) -> bool {
    match (a.spec_obj(source), a.spec_obj(object)) {
        (Some(s), Some(o)) => {
            let t = (a.next_effect_timestamp + 1) as u64;
            let mid = with_effects(a, b.control_effects, t);
            &&& b.control_effects@ == without_effect(a.control_effects@, object, source).push(ControlEffect {
                object,
                controller: s.controller,
                original_controller: o.base_controller,
                source,
                source_controller: s.controller,
                timestamp: t,
            })
            &&& match spec_derived_controller(mid, object) {
                Some(c) => control_given(mid, b, object, c),
                None => b == mid,
            }
        },
        _ => b == a,
    }
}

impl GameState {
    /// "Gain control of `object` for as long as `source`'s controller
    /// controls it" (CR 611.2b): the effect is recorded with a fresh
    /// timestamp, replacing an earlier one of the same source on the same
    /// object, and control is re-derived from every effect in force. With
    /// either object gone, nothing happens.
    pub fn gain_control_while_source_controlled(&mut self, object: ObjectId, source: ObjectId, registry: &CardRegistry)
        requires
            old(self).next_effect_timestamp < u64::MAX,
        ensures
            control_gained(*old(self), *final(self), object, source),
    {
        let source_controller = match self.get_object(source) {
            Some(s) => s.controller,
            None => return,
        };
        if self.get_object(object).is_none() {
            return;
        }
        let original_controller = match self.base_controller(object) {
            Some(c) => c,
            None => source_controller,
        };
        let mut kept: Vec<ControlEffect> = Vec::new();
        let mut i: usize = 0;
        while i < self.control_effects.len()
            invariant
                i <= self.control_effects@.len(),
                kept@ == without_effect(self.control_effects@.take(i as int), object, source),
            decreases self.control_effects@.len() - i,
        {
            proof {
                assert(self.control_effects@.take(i + 1).drop_last() =~= self.control_effects@.take(i as int));
            }
            let e = self.control_effects[i];
            if !(e.object == object && e.source == source) {
                kept.push(e);
            }
            i = i + 1;
        }
        proof {
            assert(self.control_effects@.take(i as int) =~= self.control_effects@);
        }
        self.control_effects = kept;
        let timestamp = self.next_control_timestamp();
        self.control_effects.push(ControlEffect {
            object,
            controller: source_controller,
            original_controller,
            source,
            source_controller,
            timestamp,
        });
        match self.derived_controller(object) {
            Some(controller) => self.change_control(object, controller),
            None => {},
        }
    }
}

/// A control effect's condition still holds: its source is on the
/// battlefield under the player who gained control.
pub open spec fn effect_holds(st: GameState, e: ControlEffect) -> bool {
    match st.spec_obj(e.source) {
        Some(s) => s.zone == Zone::Battlefield && s.controller == e.source_controller,
        None => false,
    }
}

/// The effects, in order, whose condition still holds.
pub open spec fn effects_holding(st: GameState, effs: Seq<ControlEffect>) -> Seq<ControlEffect>
    decreases effs.len(),
{
    if effs.len() == 0 {
        effs
    } else {
        let r = effects_holding(st, effs.drop_last());
        if effect_holds(st, effs.last()) { r.push(effs.last()) } else { r }
    }
}

/// The effects, in order, whose condition no longer holds.
pub open spec fn effects_ended(st: GameState, effs: Seq<ControlEffect>) -> Seq<ControlEffect>
    decreases effs.len(),
{
    if effs.len() == 0 {
        effs
    } else {
        let r = effects_ended(st, effs.drop_last());
        if effect_holds(st, effs.last()) { r } else { r.push(effs.last()) }
    }
}

/// Some ended effect was on `id`.
pub open spec fn control_returns(st: GameState, id: ObjectId) -> bool {
    exists|q: int| 0 <= q < effects_ended(st, st.control_effects@).len()
        && (#[trigger] effects_ended(st, st.control_effects@)[q]).object == id
}

/// A permanent given to `c`: summoning sick if that is a change of
/// controller, untouched otherwise.
pub open spec fn given_to(o: GameObject, c: PlayerId) -> GameObject {
    if o.controller != c { GameObject { controller: c, summoning_sick: true, ..o } } else { o }
}

/// What a permanent is once the ended control effects have been undone.
pub open spec fn after_expiry(st: GameState, mid: GameState, o: GameObject) -> GameObject {
    if o.zone == Zone::Battlefield && control_returns(st, o.id) {
        match spec_derived_controller(mid, o.id) {
            Some(c) => given_to(o, c),
            None => o,
        }
    } else {
        o
    }
}

/// The log line of a permanent going back to `c`.
pub open spec fn return_line(name: Seq<char>, c: PlayerId) -> Seq<char> {
    name + " returns to p"@ + spec_decimal(c.0 as nat) + ": the control effect's condition no longer holds"@
}

/// The log lines of undoing the ended effects in order: one for each
/// permanent on the battlefield that changes hands, at the first ended
/// effect on it.
pub open spec fn expiry_lines(st: GameState, mid: GameState, ended: Seq<ControlEffect>) -> Seq<(LogLevel, Seq<char>)>
    decreases ended.len(),
{
    if ended.len() == 0 {
        Seq::empty()
    } else {
        let prior = expiry_lines(st, mid, ended.drop_last());
        let e = ended.last();
        let first = forall|q: int| 0 <= q < ended.len() - 1 ==> (#[trigger] ended[q]).object != e.object;
        match (st.spec_obj(e.object), spec_derived_controller(mid, e.object)) {
            (Some(o), Some(c)) => if first && o.zone == Zone::Battlefield && o.controller != c {
                prior.push((LogLevel::Event, return_line(spec_obj_name(&st, e.object), c)))
            } else {
                prior
            },
            _ => prior,
        }
    }
}

/// One more line at the end of a log that had grown by `lines`.
proof fn lemma_log_grew_push(a: Seq<LogEntry>, b: Seq<LogEntry>, c: Seq<LogEntry>, lines: Seq<(LogLevel, Seq<char>)>,
    level: LogLevel, text: Seq<char>)
    requires
        log_grew(a, b, lines),
        logged(b, c, level, text),
    ensures
        log_grew(a, c, lines.push((level, text))),
{
    assert(c.take(a.len() as int) =~= a) by {
        assert forall|k: int| 0 <= k < a.len() implies c[k] == a[k] by {
            assert(c.drop_last()[k] == b[k]);
            assert(b.take(a.len() as int)[k] == b[k]);
        }
    }
    let l2 = lines.push((level, text));
    assert forall|k: int| 0 <= k < l2.len() implies (#[trigger] c[a.len() + k]).level == l2[k].0
        && c[a.len() + k].message@ == l2[k].1 by {
        if k < lines.len() {
            assert(c.drop_last()[a.len() + k] == b[a.len() + k]);
        }
    }
}

/// Control is re-derived from the same effects while only objects' control
/// changes.
proof fn lemma_derived_same(a: GameState, b: GameState, x: ObjectId)
    requires
        a.control_effects == b.control_effects,
        a.until_end_of_turn == b.until_end_of_turn,
        a.objects@.len() == b.objects@.len(),
        forall|k: int| 0 <= k < a.objects@.len() ==> (#[trigger] a.objects@[k]).id == b.objects@[k].id
            && a.objects@[k].base_controller == b.objects@[k].base_controller,
    ensures
        spec_derived_controller(a, x) == spec_derived_controller(b, x),
{
    crate::state::lemma_find_same_ids(a.objects@, b.objects@, x, 0);
    crate::state::lemma_find_from(a.objects@, x, 0);
}

impl GameState {
    /// End every control effect whose condition has stopped being true,
    /// giving each permanent to whoever the remaining effects say
    /// (CR 611.2b, 613.7a), with a log line for each that changes hands.
    /// Returns whether any effect ended.
    pub fn expire_control_effects(&mut self) -> (r: bool)
        requires
            old(self).wf(),
        ensures
            r == (effects_ended(*old(self), old(self).control_effects@).len() > 0),
            !r ==> *final(self) == *old(self),
            r ==> {
                let mid = GameState { control_effects: final(self).control_effects, ..*old(self) };
                &&& final(self).control_effects@ == effects_holding(*old(self), old(self).control_effects@)
                &&& final(self).objects@.len() == old(self).objects@.len()
                &&& forall|k: int| 0 <= k < old(self).objects@.len() ==>
                    #[trigger] final(self).objects@[k] == after_expiry(*old(self), mid, old(self).objects@[k])
                &&& *final(self) == (GameState {
                    objects: final(self).objects,
                    combat: final(self).combat,
                    game_log: final(self).game_log,
                    control_effects: final(self).control_effects,
                    ..*old(self)
                })
                &&& log_grew(old(self).game_log@, final(self).game_log@,
                    expiry_lines(*old(self), mid, effects_ended(*old(self), old(self).control_effects@)))
                &&& (old(self).combat is None ==> final(self).combat is None)
            },
    {
        let ghost st = *self;
        let mut ended: Vec<ControlEffect> = Vec::new();
        let mut kept: Vec<ControlEffect> = Vec::new();
        let mut i: usize = 0;
        while i < self.control_effects.len()
            invariant
                *self == st,
                i <= st.control_effects@.len(),
                ended@ == effects_ended(st, st.control_effects@.take(i as int)),
                kept@ == effects_holding(st, st.control_effects@.take(i as int)),
            decreases st.control_effects@.len() - i,
        {
            proof {
                assert(st.control_effects@.take(i + 1).drop_last() =~= st.control_effects@.take(i as int));
            }
            let e = self.control_effects[i];
            let holds = match self.get_object(e.source) {
                Some(s) => s.zone == Zone::Battlefield && s.controller == e.source_controller,
                None => false,
            };
            if holds {
                kept.push(e);
            } else {
                ended.push(e);
            }
            i = i + 1;
        }
        proof {
            assert(st.control_effects@.take(i as int) =~= st.control_effects@);
        }
        if ended.len() == 0 {
            return false;
        }
        self.control_effects = kept;
        let ghost mid = *self;
        proof {
            assert(st.game_log@.take(st.game_log@.len() as int) =~= st.game_log@);
            assert(ended@.take(0) =~= Seq::<ControlEffect>::empty());
        }
        let mut m: usize = 0;
        while m < ended.len()
            invariant
                mid == (GameState { control_effects: mid.control_effects, ..st }),
                mid.control_effects@ == effects_holding(st, st.control_effects@),
                ended@ == effects_ended(st, st.control_effects@),
                m <= ended@.len(),
                self.wf(),
                st.wf(),
                self.objects@.len() == st.objects@.len(),
                forall|k: int| 0 <= k < st.objects@.len() ==> #[trigger] self.objects@[k] == ({
                    let o = st.objects@[k];
                    if o.zone == Zone::Battlefield && exists|q: int| 0 <= q < m && (#[trigger] ended@[q]).object == o.id {
                        match spec_derived_controller(mid, o.id) {
                            Some(c) => given_to(o, c),
                            None => o,
                        }
                    } else {
                        o
                    }
                }),
                *self == (GameState { objects: self.objects, combat: self.combat, game_log: self.game_log, ..mid }),
                log_grew(st.game_log@, self.game_log@, expiry_lines(st, mid, ended@.take(m as int))),
                st.combat is None ==> self.combat is None,
            decreases ended@.len() - m,
        {
            let e = ended[m];
            let ghost before = *self;
            proof {
                assert forall|k: int| 0 <= k < before.objects@.len() implies (#[trigger] before.objects@[k]).id == mid.objects@[k].id
                    && before.objects@[k].base_controller == mid.objects@[k].base_controller by {
                    assert(before.objects@[k] == given_to(st.objects@[k], before.objects@[k].controller) || before.objects@[k] == st.objects@[k]);
                }
                lemma_derived_same(before, mid, e.object);
                crate::state::lemma_find_same_ids(before.objects@, st.objects@, e.object, 0);
                crate::state::lemma_find_from(st.objects@, e.object, 0);
                let em = ended@.take(m + 1);
                assert(em.drop_last() =~= ended@.take(m as int));
                assert(em.last() == e);
                let earlier = exists|q: int| 0 <= q < m && (#[trigger] ended@[q]).object == e.object;
                assert((forall|q: int| 0 <= q < em.len() - 1 ==> (#[trigger] em[q]).object != e.object) == !earlier) by {
                    if earlier {
                        let q = choose|q: int| 0 <= q < m && (#[trigger] ended@[q]).object == e.object;
                        assert(em[q] == ended@[q]);
                    } else {
                        assert forall|q: int| 0 <= q < em.len() - 1 implies (#[trigger] em[q]).object != e.object by {
                            assert(em[q] == ended@[q]);
                        }
                    }
                }
                match st.spec_index(e.object) {
                    Some(j) => {
                        assert(before.objects@[j].name == st.objects@[j].name);
                        assert(spec_obj_name(&before, e.object) == spec_obj_name(&st, e.object));
                    },
                    None => {},
                }
            }
            let on_battlefield = match self.get_object(e.object) {
                Some(o) => o.zone == Zone::Battlefield,
                None => false,
            };
            if on_battlefield {
                match self.derived_controller(e.object) {
                    Some(controller) => {
                        let changing = match self.get_object(e.object) {
                            Some(o) => o.controller != controller,
                            None => false,
                        };
                        let name = self.obj_name(e.object);
                        self.change_control(e.object, controller);
                        if changing {
                            proof {
                                reveal_strlit(" returns to p");
                                reveal_strlit(": the control effect's condition no longer holds");
                            }
                            let mut line = name;
                            line.append(" returns to p");
                            let who = decimal(controller.0 as u64);
                            line.append(who.as_str());
                            line.append(": the control effect's condition no longer holds");
                            let ghost logged_before = *self;
                            self.log(LogLevel::Event, line);
                            proof {
                                lemma_log_grew_push(st.game_log@, logged_before.game_log@, self.game_log@,
                                    expiry_lines(st, mid, ended@.take(m as int)), LogLevel::Event, line@);
                            }
                        }
                    },
                    None => {},
                }
            }
            proof {
                assert forall|k: int| 0 <= k < st.objects@.len() implies #[trigger] self.objects@[k] == ({
                    let o = st.objects@[k];
                    if o.zone == Zone::Battlefield && exists|q: int| 0 <= q < m + 1 && (#[trigger] ended@[q]).object == o.id {
                        match spec_derived_controller(mid, o.id) {
                            Some(c) => given_to(o, c),
                            None => o,
                        }
                    } else {
                        o
                    }
                }) by {
                    let o = st.objects@[k];
                    if o.id == e.object {
                        assert(ended@[m as int].object == o.id);
                        crate::state::lemma_find_unique(st.objects@, st.next_object_id, o.id, k);
                    } else {
                        if exists|q: int| 0 <= q < m + 1 && (#[trigger] ended@[q]).object == o.id {
                            let q = choose|q: int| 0 <= q < m + 1 && (#[trigger] ended@[q]).object == o.id;
                            assert(q < m);
                        }
                    }
                }
            }
            m = m + 1;
        }
        proof {
            assert(ended@.take(ended@.len() as int) =~= ended@);
            assert forall|k: int| 0 <= k < st.objects@.len() implies #[trigger] self.objects@[k] == after_expiry(st, mid, st.objects@[k]) by {
                let o = st.objects@[k];
                if exists|q: int| 0 <= q < ended@.len() && (#[trigger] ended@[q]).object == o.id {
                    let q = choose|q: int| 0 <= q < ended@.len() && (#[trigger] ended@[q]).object == o.id;
                    assert(control_returns(st, o.id));
                }
                if control_returns(st, o.id) {
                    let q = choose|q: int| 0 <= q < effects_ended(st, st.control_effects@).len()
                        && (#[trigger] effects_ended(st, st.control_effects@)[q]).object == o.id;
                    assert(ended@[q].object == o.id);
                }
            }
        }
        true
    }
}
} // verus!
