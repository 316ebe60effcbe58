//! Questions about the battlefield as a whole, and effects kept on the
//! state rather than on one permanent.

use vstd::prelude::*;
use crate::cards::CardRegistry;
use crate::effects::{sp_condition, sp_has_keyword, EFFECT_DEPTH};
use crate::ids::{ObjectId, PlayerId};
use crate::state::{spec_until_eot_object_target, until_eot_object_target, GameObject, GameState, SetPtEffect, TemporaryEffect};
use crate::types::{CardType, ContinuousEffect, EffectCondition, Keyword, Zone};

verus! {

/// Base power and/or toughness set on `object` (layer 7b): one more
/// effect, with the next timestamp, and nothing else changed.
pub open spec fn pt_set(a: GameState, b: GameState, object: ObjectId, power: Option<i32>, toughness: Option<i32>) -> bool {
    &&& b.next_effect_timestamp == a.next_effect_timestamp + 1
    &&& b.set_pt_effects@ == a.set_pt_effects@.push(SetPtEffect {
        object,
        power,
        toughness,
        timestamp: b.next_effect_timestamp,
    })
    &&& b == (GameState {
        next_effect_timestamp: b.next_effect_timestamp,
        set_pt_effects: b.set_pt_effects,
        ..a
    })
}

/// The until-end-of-turn effects, in order, that are not about a
/// permanent gone from the battlefield.
pub open spec fn effects_on_present(st: GameState, effs: Seq<TemporaryEffect>) -> Seq<TemporaryEffect>
    decreases effs.len(),
{
    if effs.len() == 0 {
        effs
    } else {
        let r = effects_on_present(st, effs.drop_last());
        let keep = match spec_until_eot_object_target(&effs.last()) {
            Some(id) => st.in_zone(id, Zone::Battlefield),
            None => true,
        };
        if keep { r.push(effs.last()) } else { r }
    }
}

/// The creatures `controller` controls, in id order.
pub open spec fn creatures_of(st: GameState, reg: CardRegistry, controller: PlayerId, objs: Seq<GameObject>) -> Seq<ObjectId>
    decreases objs.len(),
{
    if objs.len() == 0 {
        Seq::empty()
    } else {
        let r = creatures_of(st, reg, controller, objs.drop_last());
        let o = objs.last();
        if o.zone == Zone::Battlefield && o.controller == controller && st.spec_card_types(o.id, &reg).contains(CardType::Creature) {
            r.push(o.id)
        } else {
            r
        }
    }
}

/// A continuous effect's condition holds, read for its source.
pub open spec fn condition_holds(st: GameState, reg: CardRegistry, src: GameObject, cond: Option<&EffectCondition>) -> bool {
    match cond {
        Some(c) => sp_condition(st, *c, src.id, src.controller, reg, EFFECT_DEPTH as nat),
        None => true,
    }
}

/// The effects of one source, unwrapped, whose conditions hold; with
/// `global`, only those that modify the game's rules (no scope).
pub open spec fn live_effects(st: GameState, reg: CardRegistry, src: GameObject, es: Seq<ContinuousEffect>, global: bool) -> Seq<ContinuousEffect>
    decreases es.len(),
{
    if es.len() == 0 {
        Seq::empty()
    } else {
        let r = live_effects(st, reg, src, es.drop_last(), global);
        let (inner, cond) = es.last().spec_unwrap_condition();
        if (global ==> inner.spec_scope() is None) && condition_holds(st, reg, src, cond) { r.push(*inner) } else { r }
    }
}

/// The live effects of every permanent on the battlefield, in id order:
/// those controlled by `player`, or with `global` every permanent's
/// rule-modifying ones.
pub open spec fn board_effects(st: GameState, reg: CardRegistry, player: PlayerId, objs: Seq<GameObject>, global: bool) -> Seq<ContinuousEffect>
    decreases objs.len(),
{
    if objs.len() == 0 {
        Seq::empty()
    } else {
        let r = board_effects(st, reg, player, objs.drop_last(), global);
        let o = objs.last();
        if o.zone == Zone::Battlefield && (global || o.controller == player) {
            r + live_effects(st, reg, o, st.spec_effects(o.id, &reg), global)
        } else {
            r
        }
    }
}

/// Whether the permanent could pay a {T} cost: on the battlefield,
/// untapped, and not a summoning-sick creature without haste (CR 302.6).
pub open spec fn spec_can_pay_tap_cost(st: GameState, id: ObjectId, reg: CardRegistry) -> bool {
    match st.spec_obj(id) {
        Some(o) => o.zone == Zone::Battlefield && !o.tapped
            && !(o.summoning_sick && st.spec_card_types(id, &reg).contains(CardType::Creature)
                && !sp_has_keyword(st, id, Keyword::Haste, reg, EFFECT_DEPTH as nat)),
        None => false,
    }
}

impl GameState {
    /// Drop the until-end-of-turn effects about permanents that have left
    /// the battlefield (CR 400.7): the object they were about is gone.
    pub fn prune_effects_on_departed_objects(&mut self)
        ensures
            final(self).until_end_of_turn@ == effects_on_present(*old(self), old(self).until_end_of_turn@),
            *final(self) == (GameState { until_end_of_turn: final(self).until_end_of_turn, ..*old(self) }),
    {
        let ghost st = *self;
        proof {
            assert(st.until_end_of_turn.len() == st.until_end_of_turn@.len());
            assert(st.until_end_of_turn@.take(0) =~= Seq::<TemporaryEffect>::empty());
            assert(st.until_end_of_turn@.subrange(0, st.until_end_of_turn@.len() as int) =~= st.until_end_of_turn@);
        }
        let mut i: usize = 0;
        let mut j: usize = 0;
        while i < self.until_end_of_turn.len()
            invariant
                *self == (GameState { until_end_of_turn: self.until_end_of_turn, ..st }),
                j <= st.until_end_of_turn@.len(),
                i <= self.until_end_of_turn@.len(),
                self.until_end_of_turn@ == effects_on_present(st, st.until_end_of_turn@.take(j as int))
                    + st.until_end_of_turn@.subrange(j as int, st.until_end_of_turn@.len() as int),
                i == effects_on_present(st, st.until_end_of_turn@.take(j as int)).len(),
                self.until_end_of_turn@.len() == i + (st.until_end_of_turn@.len() - j),
                st.until_end_of_turn@.len() <= usize::MAX,
            decreases st.until_end_of_turn@.len() - j,
        {
            proof {
                assert(self.until_end_of_turn.len() == self.until_end_of_turn@.len());
                assert(j < st.until_end_of_turn@.len());
                assert(st.until_end_of_turn@.take(j + 1).drop_last() =~= st.until_end_of_turn@.take(j as int));
                assert(self.until_end_of_turn@[i as int] == st.until_end_of_turn@[j as int]);
            }
            let keep = match until_eot_object_target(&self.until_end_of_turn[i]) {
                Some(id) => match self.get_object(id) {
                    Some(o) => o.zone == Zone::Battlefield,
                    None => false,
                },
                None => true,
            };
            let ghost before = self.until_end_of_turn@;
            if keep {
                i = i + 1;
            } else {
                self.until_end_of_turn.remove(i);
            }
            j = j + 1;
            proof {
                let p = effects_on_present(st, st.until_end_of_turn@.take(j as int));
                let rest = st.until_end_of_turn@.subrange(j as int, st.until_end_of_turn@.len() as int);
                assert(self.until_end_of_turn@ =~= p + rest);
            }
        }
        proof {
            assert(st.until_end_of_turn@.take(j as int) =~= st.until_end_of_turn@);
            assert(self.until_end_of_turn@ =~= effects_on_present(st, st.until_end_of_turn@));
        }
    }

    /// The creatures `controller` controls right now, in id order: the set
    /// a resolving spell's one-shot effect reads (CR 611.2c).
    pub fn creatures_controlled_snapshot(&self, controller: PlayerId, registry: &CardRegistry) -> (r: Vec<ObjectId>)
        requires
            self.wf(),
        ensures
            r@ == creatures_of(*self, *registry, controller, self.objects@),
    {
        let mut out: Vec<ObjectId> = Vec::new();
        let mut k: usize = 0;
        while k < self.objects.len()
            invariant
                self.wf(),
                k <= self.objects@.len(),
                out@ == creatures_of(*self, *registry, controller, self.objects@.take(k as int)),
            decreases self.objects@.len() - k,
        {
            proof {
                assert(self.objects@.take(k + 1).drop_last() =~= self.objects@.take(k as int));
                crate::state::lemma_find_unique(self.objects@, self.next_object_id, self.objects@[k as int].id, k as int);
            }
            let id = self.objects[k].id;
            if self.objects[k].zone == Zone::Battlefield && self.objects[k].controller == controller
                && self.is_creature(id, registry) {
                out.push(id);
            }
            k = k + 1;
        }
        proof {
            assert(self.objects@.take(k as int) =~= self.objects@);
        }
        out
    }

    /// Whether the permanent could pay a {T} cost now.
    pub fn can_pay_tap_cost(&self, id: ObjectId, registry: &CardRegistry) -> (b: bool)
        requires
            self.seated(),
        ensures
            b == spec_can_pay_tap_cost(*self, id, *registry),
    {
        let obj = match self.get_object(id) {
            Some(o) => o,
            None => return false,
        };
        if obj.zone != Zone::Battlefield || obj.tapped {
            return false;
        }
        !(obj.summoning_sick && self.is_creature(id, registry) && !self.has_keyword(id, Keyword::Haste, registry))
    }

    /// Set the permanent's base power and/or toughness (layer 7b, CR
    /// 613.4b) with a fresh timestamp; its printed values stay as they are.
    pub fn set_base_pt(&mut self, object: ObjectId, power: Option<i32>, toughness: Option<i32>)
        requires
            old(self).next_effect_timestamp < u64::MAX,
        ensures
            pt_set(*old(self), *final(self), object, power, toughness),
    {
        let timestamp = self.next_control_timestamp();
        self.set_pt_effects.push(SetPtEffect { object, power, toughness, timestamp });
    }

    fn collect_effects<'a>(&'a self, player: PlayerId, registry: &'a CardRegistry, global: bool) -> (r: Vec<&'a ContinuousEffect>)
        requires
            self.seated(),
            self.wf(),
        ensures
            r@.map_values(|e: &ContinuousEffect| *e) == board_effects(*self, *registry, player, self.objects@, global),
    {
        let mut out: Vec<&ContinuousEffect> = Vec::new();
        let mut k: usize = 0;
        while k < self.objects.len()
            invariant
                self.seated(),
                self.wf(),
                k <= self.objects@.len(),
                out@.map_values(|e: &ContinuousEffect| *e) == board_effects(*self, *registry, player, self.objects@.take(k as int), global),
            decreases self.objects@.len() - k,
        {
            proof {
                assert(self.objects@.take(k + 1).drop_last() =~= self.objects@.take(k as int));
            }
            let source = &self.objects[k];
            if source.zone == Zone::Battlefield && (global || source.controller == player) {
                proof {
                    crate::state::lemma_find_unique(self.objects@, self.next_object_id, source.id, k as int);
                }
                let effects = self.continuous_effects_of(source.id, registry);
                let ghost base = out@.map_values(|e: &ContinuousEffect| *e);
                let ghost es = self.spec_effects(source.id, registry);
                let mut m: usize = 0;
                while m < effects.len()
                    invariant
                        self.seated(),
                        source.controller.0 < 255,
                        m <= effects@.len(),
                        effects@.map_values(|e: &ContinuousEffect| *e) == es,
                        out@.map_values(|e: &ContinuousEffect| *e) == base + live_effects(*self, *registry, *source, es.take(m as int), global),
                    decreases effects@.len() - m,
                {
                    proof {
                        assert(es.take(m + 1).drop_last() =~= es.take(m as int));
                        assert(*effects@[m as int] == es[m as int]);
                    }
                    let (inner, cond) = effects[m].unwrap_condition();
                    let scoped_ok = !global || inner.scope().is_none();
                    let holds = match cond {
                        Some(c) => self.check_condition(c, source.id, source.controller, registry, EFFECT_DEPTH),
                        None => true,
                    };
                    let ghost prev = out@;
                    if scoped_ok && holds {
                        out.push(inner);
                        proof {
                            assert(out@.map_values(|e: &ContinuousEffect| *e) =~= prev.map_values(|e: &ContinuousEffect| *e).push(*inner));
                        }
                    }
                    proof {
                        let a = base + live_effects(*self, *registry, *source, es.take(m + 1), global);
                        assert(out@.map_values(|e: &ContinuousEffect| *e) =~= a);
                    }
                    m = m + 1;
                }
                proof {
                    assert(es.take(m as int) =~= es);
                }
            }
            k = k + 1;
        }
        proof {
            assert(self.objects@.take(k as int) =~= self.objects@);
        }
        out
    }

    /// The continuous effects of the permanents `player` controls, in id
    /// order, unwrapped, those with a condition only while it holds.
    pub fn effects_controlled_by<'a>(&'a self, player: PlayerId, registry: &'a CardRegistry) -> (r: Vec<&'a ContinuousEffect>)
        requires
            self.seated(),
            self.wf(),
        ensures
            r@.map_values(|e: &ContinuousEffect| *e) == board_effects(*self, *registry, player, self.objects@, false),
    {
        self.collect_effects(player, registry, false)
    }

    /// The continuous effects that modify the rules of the game rather than
    /// a permanent (those with no scope), of every permanent on the
    /// battlefield, those with a condition only while it holds.
    pub fn global_effects<'a>(&'a self, registry: &'a CardRegistry) -> (r: Vec<&'a ContinuousEffect>)
        requires
            self.seated(),
            self.wf(),
        ensures
            r@.map_values(|e: &ContinuousEffect| *e) == board_effects(*self, *registry, PlayerId(0), self.objects@, true),
    {
        self.collect_effects(PlayerId(0), registry, true)
    }
}

} // verus!
