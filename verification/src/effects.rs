//! The continuous-effects layer: which permanents' static abilities apply
//! to an object, under which filters and conditions, and what that makes
//! of its keywords and abilities to attack, block and untap.
//!
//! Filters, conditions and keywords can ask about each other ("creatures
//! with flying get ...", "has lifelink as long as it has ..."), so every
//! question here carries a depth: a keyword question asked from inside
//! another one gets one less, and a question that runs out of depth
//! counts as not holding. `EFFECT_DEPTH` is far beyond what any real
//! board nests.

use vstd::prelude::*;
use crate::cards::CardRegistry;
use crate::ids::{ObjectId, PlayerId};
use crate::state::{GameObject, GameState, TemporaryEffect};
use crate::text::{contains_string, views};
use crate::types::{ContinuousEffect, CreatureFilter, EffectCondition, EffectScope, Keyword, Zone};

verus! {

/// How deep filters, conditions and keyword questions may nest.
pub const EFFECT_DEPTH: usize = 16;

/// Which continuous effects a walk over the board is looking for.
#[derive(Debug)]
pub enum EffectQuery {
    ModifyPT,
    /// Grants of this keyword.
    GrantKeyword(Keyword),
    PreventAttack,
    PreventBlock,
    ForceAttack,
    CantBeBlocked,
    PreventUntap,
    /// Protection of either kind.
    Protection,
    /// Protection given by a filter.
    ProtectionFrom,
    /// Protection from one of these subtypes.
    ProtectionFromSubtypeIn(Vec<String>),
}

/// Whether the query wants this (unwrapped) effect.
pub open spec fn spec_wants(q: EffectQuery, e: ContinuousEffect) -> bool {
    match q {
        EffectQuery::ModifyPT => e is ModifyPT,
        EffectQuery::GrantKeyword(k) => e matches ContinuousEffect::GrantKeyword { keyword, .. } && keyword == k,
        EffectQuery::PreventAttack => e is PreventAttack,
        EffectQuery::PreventBlock => e is PreventBlock,
        EffectQuery::ForceAttack => e is ForceAttack,
        EffectQuery::CantBeBlocked => e is CantBeBlocked,
        EffectQuery::PreventUntap => e is PreventUntap,
        EffectQuery::Protection => e is ProtectionFrom || e is ProtectionFromSubtype,
        EffectQuery::ProtectionFrom => e is ProtectionFrom,
        EffectQuery::ProtectionFromSubtypeIn(subs) => e matches ContinuousEffect::ProtectionFromSubtype { subtype, .. }
            && views(subs@).contains(subtype@),
    }
}

fn wants(q: &EffectQuery, e: &ContinuousEffect) -> (b: bool)
    ensures
        b == spec_wants(*q, *e),
{
    match q {
        EffectQuery::ModifyPT => match e { ContinuousEffect::ModifyPT { .. } => true, _ => false },
        EffectQuery::GrantKeyword(k) => match e {
            ContinuousEffect::GrantKeyword { keyword, .. } => *keyword == *k,
            _ => false,
        },
        EffectQuery::PreventAttack => match e { ContinuousEffect::PreventAttack { .. } => true, _ => false },
        EffectQuery::PreventBlock => match e { ContinuousEffect::PreventBlock { .. } => true, _ => false },
        EffectQuery::ForceAttack => match e { ContinuousEffect::ForceAttack { .. } => true, _ => false },
        EffectQuery::CantBeBlocked => match e { ContinuousEffect::CantBeBlocked { .. } => true, _ => false },
        EffectQuery::PreventUntap => match e { ContinuousEffect::PreventUntap { .. } => true, _ => false },
        EffectQuery::Protection => match e {
            ContinuousEffect::ProtectionFrom { .. } => true,
            ContinuousEffect::ProtectionFromSubtype { .. } => true,
            _ => false,
        },
        EffectQuery::ProtectionFrom => match e { ContinuousEffect::ProtectionFrom { .. } => true, _ => false },
        EffectQuery::ProtectionFromSubtypeIn(subs) => match e {
            ContinuousEffect::ProtectionFromSubtype { subtype, .. } => contains_string(subs, subtype.as_str()),
            _ => false,
        },
    }
}

/// A measure of a filter's size, for recursion over it.
pub open spec fn filter_size(f: CreatureFilter) -> nat
    decreases f,
{
    match f {
        CreatureFilter::And(fs) => 1 + filters_size(fs@),
        CreatureFilter::Or(fs) => 1 + filters_size(fs@),
        CreatureFilter::Not(b) => 1 + filter_size(*b),
        _ => 1,
    }
}

/// The size of a list of filters.
pub open spec fn filters_size(fs: Seq<CreatureFilter>) -> nat
    decreases fs,
{
    if fs.len() == 0 {
        0
    } else {
        filters_size(fs.drop_last()) + filter_size(fs.last()) + 1
    }
}

/// Whether the creature matches the filter, seen from the source and its
/// controller (CR 611.3).
pub open spec fn sp_matches(st: GameState, c: ObjectId, f: CreatureFilter, src: ObjectId, ctrl: PlayerId,
    reg: CardRegistry, fuel: nat) -> bool
    decreases fuel, 1int, filter_size(f),
{
    match st.spec_obj(c) {
        None => false,
        Some(o) => match f {
            CreatureFilter::ControlledByYou => o.controller == ctrl,
            CreatureFilter::ControlledByOpponent => o.controller != ctrl,
            CreatureFilter::ControlledByYouToken => o.controller == ctrl && o.is_token,
            CreatureFilter::HasSubtype(s) => st.spec_has_subtype(c, s@, &reg),
            CreatureFilter::HasCardType(t) => st.spec_card_types(c, &reg).contains(t),
            CreatureFilter::HasKeyword(k) => if fuel == 0 { false } else {
                sp_has_keyword(st, c, k, reg, (fuel - 1) as nat)
            },
            CreatureFilter::And(fs) => sp_all(st, c, fs@, src, ctrl, reg, fuel),
            CreatureFilter::Or(fs) => sp_any(st, c, fs@, src, ctrl, reg, fuel),
            CreatureFilter::Not(b) => !sp_matches(st, c, *b, src, ctrl, reg, fuel),
            CreatureFilter::Attacking => st.combat matches Some(cb) && spec_has_attacker(cb.attackers@, c),
            CreatureFilter::Blocking => st.combat matches Some(cb) && spec_is_blocking(cb.blocker_assignments@, c),
            CreatureFilter::ControlledByAttachedPlayer => st.spec_obj(src) matches Some(s)
                && s.attached_to_player == Some(o.controller),
        },
    }
}

/// Every filter of the list matches.
pub open spec fn sp_all(st: GameState, c: ObjectId, fs: Seq<CreatureFilter>, src: ObjectId, ctrl: PlayerId,
    reg: CardRegistry, fuel: nat) -> bool
    decreases fuel, 1int, filters_size(fs),
{
    if fs.len() == 0 {
        true
    } else {
        sp_all(st, c, fs.drop_last(), src, ctrl, reg, fuel) && sp_matches(st, c, fs.last(), src, ctrl, reg, fuel)
    }
}

/// Some filter of the list matches.
pub open spec fn sp_any(st: GameState, c: ObjectId, fs: Seq<CreatureFilter>, src: ObjectId, ctrl: PlayerId,
    reg: CardRegistry, fuel: nat) -> bool
    decreases fuel, 1int, filters_size(fs),
{
    if fs.len() == 0 {
        false
    } else {
        sp_any(st, c, fs.drop_last(), src, ctrl, reg, fuel) || sp_matches(st, c, fs.last(), src, ctrl, reg, fuel)
    }
}

/// The combat lists this creature as an attacker.
pub open spec fn spec_has_attacker(a: Seq<(ObjectId, PlayerId)>, c: ObjectId) -> bool {
    exists|i: int| 0 <= i < a.len() && a[i].0 == c
}

/// Some attacker's blocker list holds this creature.
pub open spec fn spec_is_blocking(b: Seq<(ObjectId, Vec<ObjectId>)>, c: ObjectId) -> bool {
    exists|i: int| 0 <= i < b.len() && b[i].1@.contains(c)
}

/// Whether an effect with this scope, provided by `src`, reaches `c`.
pub open spec fn sp_applies(st: GameState, c: ObjectId, scope: EffectScope, src: ObjectId, ctrl: PlayerId,
    reg: CardRegistry, fuel: nat) -> bool
    decreases fuel, 2int, 0nat,
{
    match scope {
        EffectScope::OnSelf => c == src,
        EffectScope::Attached => st.spec_obj(src) matches Some(s) && s.attached_to == Some(c),
        EffectScope::Global(f) => sp_matches(st, c, f, src, ctrl, reg, fuel),
        EffectScope::GlobalOther(f) => c != src && sp_matches(st, c, f, src, ctrl, reg, fuel),
    }
}

/// Some permanent `ctrl` (or, with `other`, the other player) controls
/// has the subtype.
pub open spec fn sp_controls_subtype(st: GameState, who: PlayerId, s: Seq<char>, reg: CardRegistry) -> bool {
    exists|i: int| 0 <= i < st.objects@.len() && st.objects@[i].zone == Zone::Battlefield
        && st.objects@[i].controller == who && #[trigger] st.spec_has_subtype(st.objects@[i].id, s, &reg)
}

/// The opponent of a player in turn order.
pub open spec fn spec_next_player(st: GameState, p: PlayerId) -> PlayerId {
    PlayerId(((p.0 + 1) % (if st.players@.len() < 255 { st.players@.len() as int } else { 255 })) as u8)
}

/// Whether a `When` condition holds for the source and its controller.
pub open spec fn sp_condition(st: GameState, cond: EffectCondition, src: ObjectId, ctrl: PlayerId,
    reg: CardRegistry, fuel: nat) -> bool
    decreases fuel, 2int, 0nat,
{
    match cond {
        EffectCondition::YouControlSubtype(s) => sp_controls_subtype(st, ctrl, s@, reg),
        EffectCondition::OpponentControlsSubtype(s) => sp_controls_subtype(st, spec_next_player(st, ctrl), s@, reg),
        EffectCondition::SelfHasKeyword(k) => if fuel == 0 { false } else {
            sp_has_keyword(st, src, k, reg, (fuel - 1) as nat)
        },
        EffectCondition::AttachedHasSubtype(s) => st.spec_obj(src) matches Some(o) && o.attached_to matches Some(t)
            && st.spec_has_subtype(t, s@, &reg),
        EffectCondition::AttachedLacksSubtype(s) => !(st.spec_obj(src) matches Some(o) && o.attached_to matches Some(t)
            && st.spec_has_subtype(t, s@, &reg)),
    }
}

/// Whether one effect of the source applies to `c` for the query.
pub open spec fn sp_effect_ok(st: GameState, c: ObjectId, q: EffectQuery, src: GameObject, e: ContinuousEffect,
    reg: CardRegistry, fuel: nat) -> bool
    decreases fuel, 3int, 0nat,
{
    let (inner, cond) = e.spec_unwrap_condition();
    &&& spec_wants(q, *inner)
    &&& inner.spec_scope() is Some
    &&& sp_applies(st, c, *inner.spec_scope().unwrap(), src.id, src.controller, reg, fuel)
    &&& match cond {
        Some(k) => sp_condition(st, *k, src.id, src.controller, reg, fuel),
        None => true,
    }
}

/// The effects of one source (in order) that apply, unwrapped.
pub open spec fn sp_effect_hits(st: GameState, c: ObjectId, q: EffectQuery, src: GameObject, es: Seq<ContinuousEffect>,
    reg: CardRegistry, fuel: nat) -> Seq<(GameObject, ContinuousEffect)>
    decreases fuel, 4int, es.len(),
{
    if es.len() == 0 {
        Seq::empty()
    } else {
        let prior = sp_effect_hits(st, c, q, src, es.drop_last(), reg, fuel);
        if sp_effect_ok(st, c, q, src, es.last(), reg, fuel) {
            prior.push((src, *es.last().spec_unwrap_condition().0))
        } else {
            prior
        }
    }
}

/// Every (source, effect) that applies to `c` for the query, walking the
/// permanents on the battlefield in id order.
pub open spec fn sp_hits(st: GameState, c: ObjectId, q: EffectQuery, objs: Seq<GameObject>,
    reg: CardRegistry, fuel: nat) -> Seq<(GameObject, ContinuousEffect)>
    decreases fuel, 5int, objs.len(),
{
    if objs.len() == 0 {
        Seq::empty()
    } else {
        let prior = sp_hits(st, c, q, objs.drop_last(), reg, fuel);
        let src = objs.last();
        if src.zone == Zone::Battlefield {
            prior + sp_effect_hits(st, c, q, src, st.spec_effects(src.id, &reg), reg, fuel)
        } else {
            prior
        }
    }
}

/// Whether a permanent on the battlefield has the keyword: not removed
/// this turn, and printed on its face (a token's or faceless object's own
/// list), granted by a continuous effect, or granted until end of turn.
pub open spec fn sp_has_keyword(st: GameState, c: ObjectId, k: Keyword, reg: CardRegistry, fuel: nat) -> bool
    decreases fuel, 6int, 0nat,
{
    match st.spec_obj(c) {
        Some(o) => o.zone == Zone::Battlefield && !spec_keyword_removed(st.until_end_of_turn@, c, k) && (
            spec_printed_keyword(st, o, k, reg)
            || sp_hits(st, c, EffectQuery::GrantKeyword(k), st.objects@, reg, fuel).len() > 0
            || spec_keyword_granted_eot(st.until_end_of_turn@, c, k)),
        None => false,
    }
}

/// This effect removes the keyword from `c` until end of turn.
pub open spec fn is_keyword_removal(e: TemporaryEffect, c: ObjectId, k: Keyword) -> bool {
    e matches TemporaryEffect::RemoveKeyword { target, keyword } && target == c && keyword == k
}

/// This effect grants the keyword to `c` until end of turn.
pub open spec fn is_keyword_grant(e: TemporaryEffect, c: ObjectId, k: Keyword) -> bool {
    e matches TemporaryEffect::GrantKeyword { target, keyword } && target == c && keyword == k
}

/// An until-end-of-turn effect removed the keyword.
pub open spec fn spec_keyword_removed(t: Seq<TemporaryEffect>, c: ObjectId, k: Keyword) -> bool {
    exists|i: int| 0 <= i < t.len() && #[trigger] is_keyword_removal(t[i], c, k)
}

/// An until-end-of-turn effect granted the keyword.
pub open spec fn spec_keyword_granted_eot(t: Seq<TemporaryEffect>, c: ObjectId, k: Keyword) -> bool {
    exists|i: int| 0 <= i < t.len() && #[trigger] is_keyword_grant(t[i], c, k)
}

/// The keyword is printed: on the face that is up for a card, in the
/// object's own list for anything without a card behind it.
pub open spec fn spec_printed_keyword(st: GameState, o: GameObject, k: Keyword, reg: CardRegistry) -> bool {
    match reg.spec_get(o.card_id) {
        Some(card) => if o.is_transformed {
            card.back matches Some(b) && b.keywords@.contains(k)
        } else {
            card.front.keywords@.contains(k)
        },
        None => o.keywords@.contains(k),
    }
}


/// A filter in a list is smaller than the list.
pub proof fn lemma_filter_in_list(fs: Seq<CreatureFilter>, i: int)
    requires
        0 <= i < fs.len(),
    ensures
        filter_size(fs[i]) < filters_size(fs),
    decreases fs.len(),
{
    if i < fs.len() - 1 {
        lemma_filter_in_list(fs.drop_last(), i);
    }
}

impl GameState {
    /// Every game has a player, and every object's controller is a seat
    /// the turn order can count past.
    pub open spec fn seated(&self) -> bool {
        &&& self.players@.len() > 0
        &&& forall|i: int| 0 <= i < self.objects@.len() ==> #[trigger] self.objects@[i].controller.0 < 255
    }

    fn next_seat(&self, p: PlayerId) -> (r: PlayerId)
        requires
            self.players@.len() > 0,
            p.0 < 255,
        ensures
            r == spec_next_player(*self, p),
    {
        let n: u8 = if self.players.len() < 255 { self.players.len() as u8 } else { 255u8 };
        PlayerId((p.0 + 1) % n)
    }

    fn matches_filter_at(&self, c: ObjectId, f: &CreatureFilter, src: ObjectId, ctrl: PlayerId,
        reg: &CardRegistry, fuel: usize) -> (b: bool)
        requires
            self.seated(),
        ensures
            b == sp_matches(*self, c, *f, src, ctrl, *reg, fuel as nat),
        decreases fuel, 1int, filter_size(*f),
    {
        let o = match self.get_object(c) {
            Some(o) => o,
            None => return false,
        };
        match f {
            CreatureFilter::ControlledByYou => o.controller == ctrl,
            CreatureFilter::ControlledByOpponent => o.controller != ctrl,
            CreatureFilter::ControlledByYouToken => o.controller == ctrl && o.is_token,
            CreatureFilter::HasSubtype(s) => self.has_subtype(c, s.as_str(), reg),
            CreatureFilter::HasCardType(t) => self.has_card_type(c, *t, reg),
            CreatureFilter::HasKeyword(k) => if fuel == 0 { false } else {
                self.has_keyword_at(c, *k, reg, fuel - 1)
            },
            CreatureFilter::And(fs) => {
                let mut all = true;
                let mut i: usize = 0;
                while i < fs.len()
                    invariant
                        self.seated(),
                        *f == CreatureFilter::And(*fs),
                        i <= fs@.len(),
                        all == sp_all(*self, c, fs@.take(i as int), src, ctrl, *reg, fuel as nat),
                    decreases fs@.len() - i,
                {
                    proof {
                        assert(fs@.take(i + 1).drop_last() =~= fs@.take(i as int));
                        lemma_filter_in_list(fs@, i as int);
                    }
                    let m = self.matches_filter_at(c, &fs[i], src, ctrl, reg, fuel);
                    all = all && m;
                    i = i + 1;
                }
                proof { assert(fs@.take(i as int) =~= fs@); }
                all
            },
            CreatureFilter::Or(fs) => {
                let mut any = false;
                let mut i: usize = 0;
                while i < fs.len()
                    invariant
                        self.seated(),
                        *f == CreatureFilter::Or(*fs),
                        i <= fs@.len(),
                        any == sp_any(*self, c, fs@.take(i as int), src, ctrl, *reg, fuel as nat),
                    decreases fs@.len() - i,
                {
                    proof {
                        assert(fs@.take(i + 1).drop_last() =~= fs@.take(i as int));
                        lemma_filter_in_list(fs@, i as int);
                    }
                    let m = self.matches_filter_at(c, &fs[i], src, ctrl, reg, fuel);
                    any = any || m;
                    i = i + 1;
                }
                proof { assert(fs@.take(i as int) =~= fs@); }
                any
            },
            CreatureFilter::Not(b) => !self.matches_filter_at(c, &**b, src, ctrl, reg, fuel),
            CreatureFilter::Attacking => match &self.combat {
                Some(cb) => is_attacking(cb, c),
                None => false,
            },
            CreatureFilter::Blocking => match &self.combat {
                Some(cb) => is_blocking(cb, c),
                None => false,
            },
            CreatureFilter::ControlledByAttachedPlayer => match self.get_object(src) {
                Some(s) => s.attached_to_player == Some(o.controller),
                None => false,
            },
        }
    }

    fn effect_applies_to(&self, c: ObjectId, scope: &EffectScope, src: ObjectId, ctrl: PlayerId,
        reg: &CardRegistry, fuel: usize) -> (b: bool)
        requires
            self.seated(),
        ensures
            b == sp_applies(*self, c, *scope, src, ctrl, *reg, fuel as nat),
        decreases fuel, 2int, 0nat,
    {
        match scope {
            EffectScope::OnSelf => c == src,
            EffectScope::Attached => match self.get_object(src) {
                Some(s) => s.attached_to == Some(c),
                None => false,
            },
            EffectScope::Global(f) => self.matches_filter_at(c, f, src, ctrl, reg, fuel),
            EffectScope::GlobalOther(f) => c != src && self.matches_filter_at(c, f, src, ctrl, reg, fuel),
        }
    }

    fn controls_subtype(&self, who: PlayerId, s: &str, reg: &CardRegistry) -> (b: bool)
        ensures
            b == sp_controls_subtype(*self, who, s@, *reg),
    {
        let mut i: usize = 0;
        while i < self.objects.len()
            invariant
                i <= self.objects@.len(),
                forall|j: int| 0 <= j < i ==> !(self.objects@[j].zone == Zone::Battlefield
                    && self.objects@[j].controller == who && #[trigger] self.spec_has_subtype(self.objects@[j].id, s@, reg)),
            decreases self.objects@.len() - i,
        {
            let o = &self.objects[i];
            if o.zone == Zone::Battlefield && o.controller == who && self.has_subtype(o.id, s, reg) {
                return true;
            }
            i = i + 1;
        }
        false
    }

    pub(crate) fn check_condition(&self, cond: &EffectCondition, src: ObjectId, ctrl: PlayerId, reg: &CardRegistry,
        fuel: usize) -> (b: bool)
        requires
            self.seated(),
            ctrl.0 < 255,
        ensures
            b == sp_condition(*self, *cond, src, ctrl, *reg, fuel as nat),
        decreases fuel, 2int, 0nat,
    {
        match cond {
            EffectCondition::YouControlSubtype(s) => self.controls_subtype(ctrl, s.as_str(), reg),
            EffectCondition::OpponentControlsSubtype(s) => {
                let opp = self.next_seat(ctrl);
                self.controls_subtype(opp, s.as_str(), reg)
            },
            EffectCondition::SelfHasKeyword(k) => if fuel == 0 { false } else {
                self.has_keyword_at(src, *k, reg, fuel - 1)
            },
            EffectCondition::AttachedHasSubtype(s) => match self.get_object(src) {
                Some(o) => match o.attached_to {
                    Some(t) => self.has_subtype(t, s.as_str(), reg),
                    None => false,
                },
                None => false,
            },
            EffectCondition::AttachedLacksSubtype(s) => match self.get_object(src) {
                Some(o) => match o.attached_to {
                    Some(t) => !self.has_subtype(t, s.as_str(), reg),
                    None => true,
                },
                None => true,
            },
        }
    }

    fn effect_ok(&self, c: ObjectId, q: &EffectQuery, src: &GameObject, e: &ContinuousEffect, reg: &CardRegistry,
        fuel: usize) -> (b: bool)
        requires
            self.seated(),
            src.controller.0 < 255,
        ensures
            b == sp_effect_ok(*self, c, *q, *src, *e, *reg, fuel as nat),
        decreases fuel, 3int, 0nat,
    {
        let (inner, cond) = e.unwrap_condition();
        if !wants(q, inner) {
            return false;
        }
        let scope = match inner.scope() {
            Some(s) => s,
            None => return false,
        };
        if !self.effect_applies_to(c, scope, src.id, src.controller, reg, fuel) {
            return false;
        }
        match cond {
            Some(k) => self.check_condition(k, src.id, src.controller, reg, fuel),
            None => true,
        }
    }

    /// Every (source, effect) that applies to `c` for the query, sources in
    /// id order and each source's effects in order.
    fn walk_effects_at<'a>(&'a self, c: ObjectId, q: &EffectQuery, reg: &'a CardRegistry, fuel: usize)
        -> (r: Vec<(&'a GameObject, &'a ContinuousEffect)>)
        requires
            self.seated(),
        ensures
            r@.len() == sp_hits(*self, c, *q, self.objects@, *reg, fuel as nat).len(),
            forall|k: int| 0 <= k < r@.len() ==> (*r@[k].0, *r@[k].1)
                == #[trigger] sp_hits(*self, c, *q, self.objects@, *reg, fuel as nat)[k],
        decreases fuel, 5int, 0nat,
    {
        let mut out: Vec<(&GameObject, &ContinuousEffect)> = Vec::new();
        let mut i: usize = 0;
        while i < self.objects.len()
            invariant
                self.seated(),
                i <= self.objects@.len(),
                out@.len() == sp_hits(*self, c, *q, self.objects@.take(i as int), *reg, fuel as nat).len(),
                forall|k: int| 0 <= k < out@.len() ==> (*out@[k].0, *out@[k].1)
                    == #[trigger] sp_hits(*self, c, *q, self.objects@.take(i as int), *reg, fuel as nat)[k],
            decreases self.objects@.len() - i,
        {
            proof {
                assert(self.objects@.take(i + 1).drop_last() =~= self.objects@.take(i as int));
            }
            let src = &self.objects[i];
            let ghost before = sp_hits(*self, c, *q, self.objects@.take(i as int), *reg, fuel as nat);
            if src.zone == Zone::Battlefield {
                let effects = self.continuous_effects_of(src.id, reg);
                let ghost es = self.spec_effects(src.id, reg);
                proof {
                    assert(self.objects@[i as int].controller.0 < 255);
                    crate::state::lemma_find_from(self.objects@, src.id, 0);
                }
                let mut j: usize = 0;
                while j < effects.len()
                    invariant
                        self.seated(),
                        src.controller.0 < 255,
                        j <= effects@.len(),
                        effects@.map_values(|e: &ContinuousEffect| *e) == es,
                        out@.len() == before.len() + sp_effect_hits(*self, c, *q, *src, es.take(j as int), *reg, fuel as nat).len(),
                        forall|k: int| 0 <= k < before.len() ==> (*out@[k].0, *out@[k].1) == #[trigger] before[k],
                        forall|k: int| 0 <= k < out@.len() - before.len() ==> (*out@[before.len() + k].0, *out@[before.len() + k].1)
                            == #[trigger] sp_effect_hits(*self, c, *q, *src, es.take(j as int), *reg, fuel as nat)[k],
                    decreases effects@.len() - j,
                {
                    proof {
                        assert(es.take(j + 1).drop_last() =~= es.take(j as int));
                        assert(es[j as int] == *effects@[j as int]);
                    }
                    let e = effects[j];
                    if self.effect_ok(c, q, src, e, reg, fuel) {
                        let (inner, _) = e.unwrap_condition();
                        out.push((src, inner));
                    }
                    j = j + 1;
                }
                proof {
                    assert(es.take(j as int) =~= es);
                }
            }
            i = i + 1;
        }
        proof {
            assert(self.objects@.take(i as int) =~= self.objects@);
        }
        out
    }

    fn has_keyword_at(&self, c: ObjectId, k: Keyword, reg: &CardRegistry, fuel: usize) -> (b: bool)
        requires
            self.seated(),
        ensures
            b == sp_has_keyword(*self, c, k, *reg, fuel as nat),
        decreases fuel, 6int, 0nat,
    {
        let o = match self.get_object(c) {
            Some(o) => o,
            None => return false,
        };
        if o.zone != Zone::Battlefield {
            return false;
        }
        if keyword_removed(&self.until_end_of_turn, c, k) {
            return false;
        }
        let printed = match reg.get(o.card_id) {
            Some(card) => if o.is_transformed {
                match &card.back {
                    Some(b) => contains_keyword(&b.keywords, k),
                    None => false,
                }
            } else {
                contains_keyword(&card.front.keywords, k)
            },
            None => contains_keyword(&o.keywords, k),
        };
        if printed {
            return true;
        }
        let q = EffectQuery::GrantKeyword(k);
        let hits = self.walk_effects_at(c, &q, reg, fuel);
        if hits.len() > 0 {
            return true;
        }
        keyword_granted_eot(&self.until_end_of_turn, c, k)
    }
}

fn is_attacking(cb: &crate::state::CombatState, c: ObjectId) -> (b: bool)
    ensures
        b == spec_has_attacker(cb.attackers@, c),
{
    let mut i: usize = 0;
    while i < cb.attackers.len()
        invariant
            i <= cb.attackers@.len(),
            forall|j: int| 0 <= j < i ==> cb.attackers@[j].0 != c,
        decreases cb.attackers@.len() - i,
    {
        if cb.attackers[i].0 == c {
            return true;
        }
        i = i + 1;
    }
    false
}

fn is_blocking(cb: &crate::state::CombatState, c: ObjectId) -> (b: bool)
    ensures
        b == spec_is_blocking(cb.blocker_assignments@, c),
{
    let mut i: usize = 0;
    while i < cb.blocker_assignments.len()
        invariant
            i <= cb.blocker_assignments@.len(),
            forall|j: int| 0 <= j < i ==> !cb.blocker_assignments@[j].1@.contains(c),
        decreases cb.blocker_assignments@.len() - i,
    {
        if crate::util::contains_id(&cb.blocker_assignments[i].1, c) {
            return true;
        }
        i = i + 1;
    }
    false
}

fn keyword_removed(t: &Vec<TemporaryEffect>, c: ObjectId, k: Keyword) -> (b: bool)
    ensures
        b == spec_keyword_removed(t@, c, k),
{
    let mut i: usize = 0;
    while i < t.len()
        invariant
            i <= t@.len(),
            forall|j: int| 0 <= j < i ==> !is_keyword_removal(t@[j], c, k),
        decreases t@.len() - i,
    {
        match &t[i] {
            TemporaryEffect::RemoveKeyword { target, keyword } => {
                if *target == c && *keyword == k {
                    assert(is_keyword_removal(t@[i as int], c, k));
                    return true;
                }
            },
            _ => {},
        }
        i = i + 1;
    }
    false
}

fn keyword_granted_eot(t: &Vec<TemporaryEffect>, c: ObjectId, k: Keyword) -> (b: bool)
    ensures
        b == spec_keyword_granted_eot(t@, c, k),
{
    let mut i: usize = 0;
    while i < t.len()
        invariant
            i <= t@.len(),
            forall|j: int| 0 <= j < i ==> !is_keyword_grant(t@[j], c, k),
        decreases t@.len() - i,
    {
        match &t[i] {
            TemporaryEffect::GrantKeyword { target, keyword } => {
                if *target == c && *keyword == k {
                    assert(is_keyword_grant(t@[i as int], c, k));
                    return true;
                }
            },
            _ => {},
        }
        i = i + 1;
    }
    false
}

fn contains_keyword(v: &Vec<Keyword>, k: Keyword) -> (b: bool)
    ensures
        b == v@.contains(k),
{
    let mut i: usize = 0;
    while i < v.len()
        invariant
            i <= v@.len(),
            forall|j: int| 0 <= j < i ==> v@[j] != k,
        decreases v@.len() - i,
    {
        if v[i] == k {
            assert(v@[i as int] == k);
            return true;
        }
        i = i + 1;
    }
    false
}

/// The P/T modification (power side, or toughness side) of the hits.
pub open spec fn sum_pt(h: Seq<(GameObject, ContinuousEffect)>, power: bool) -> int
    decreases h.len(),
{
    if h.len() == 0 {
        0
    } else {
        sum_pt(h.drop_last(), power) + match h.last().1 {
            ContinuousEffect::ModifyPT { power: p, toughness: t, .. } => if power { p as int } else { t as int },
            _ => 0,
        }
    }
}

/// The latest layer-7b value for the object (CR 613.7a): highest
/// timestamp, and of equal timestamps the one set last.
pub open spec fn latest_set(es: Seq<crate::state::SetPtEffect>, obj: ObjectId, power: bool) -> Option<(u64, i32)>
    decreases es.len(),
{
    if es.len() == 0 {
        None
    } else {
        let prior = latest_set(es.drop_last(), obj, power);
        let e = es.last();
        let v = if power { e.power } else { e.toughness };
        if e.object == obj && v is Some && (prior matches Some(p) ==> p.0 <= e.timestamp) {
            Some((e.timestamp, v.unwrap()))
        } else {
            prior
        }
    }
}

/// The until-end-of-turn P/T modifications on the object (a source-bound
/// one only while its source is on the battlefield).
pub open spec fn eot_pt(st: GameState, t: Seq<TemporaryEffect>, id: ObjectId, power: bool) -> int
    decreases t.len(),
{
    if t.len() == 0 {
        0
    } else {
        eot_pt(st, t.drop_last(), id, power) + match t.last() {
            TemporaryEffect::ModifyPT { target, power_mod, toughness_mod } =>
                if target == id { if power { power_mod as int } else { toughness_mod as int } } else { 0 },
            TemporaryEffect::ModifyPTWhileSourceInPlay { target, source, power_mod, toughness_mod } =>
                if target == id && st.in_zone(source, Zone::Battlefield) {
                    if power { power_mod as int } else { toughness_mod as int }
                } else {
                    0
                },
            _ => 0,
        }
    }
}

/// A counter count as the signed amount it adds.
pub open spec fn counter_amount(n: nat) -> int {
    if n > i32::MAX { i32::MAX as int } else { n as int }
}

/// The printed power (or toughness) an object starts from: the back face's
/// for a transformed card that has one, else the object's own.
pub open spec fn base_pt(o: GameObject, reg: CardRegistry, power: bool) -> Option<i32> {
    let own = if power { o.power } else { o.toughness };
    match reg.spec_get(o.card_id) {
        Some(card) => if own is Some && o.is_transformed {
            match card.back {
                Some(b) => {
                    let printed = if power { b.power } else { b.toughness };
                    if printed is Some { printed } else { own }
                },
                None => own,
            }
        } else {
            own
        },
        None => own,
    }
}

/// Effective power (or toughness): the base; on the battlefield, a
/// layer-7b value over it, then continuous effects, counters and
/// until-end-of-turn effects on top (CR 613).
pub open spec fn sp_pt(st: GameState, id: ObjectId, reg: CardRegistry, power: bool) -> Option<int> {
    match st.spec_obj(id) {
        None => None,
        Some(o) => match base_pt(o, reg, power) {
            None => None,
            Some(b) => if o.zone != Zone::Battlefield {
                Some(b as int)
            } else {
                let start = match latest_set(st.set_pt_effects@, id, power) {
                    Some(p) => p.1 as int,
                    None => b as int,
                };
                let plus = counter_amount(crate::objects::spec_counter(o.counters@, crate::types::CounterType::PlusOnePlusOne));
                let minus = counter_amount(crate::objects::spec_counter(o.counters@, crate::types::CounterType::MinusOneMinusOne));
                Some(start + sum_pt(sp_hits(st, id, EffectQuery::ModifyPT, st.objects@, reg, EFFECT_DEPTH as nat), power)
                    + plus - minus + eot_pt(st, st.until_end_of_turn@, id, power))
            },
        },
    }
}

/// The value fits the type the engine keeps P/T in.
pub open spec fn fits_i32(v: Option<int>) -> bool {
    match v {
        Some(x) => i32::MIN <= x <= i32::MAX,
        None => true,
    }
}

/// The layer-7b value in force for the object, if any.
pub open spec fn set_value(es: Seq<crate::state::SetPtEffect>, obj: ObjectId, power: bool) -> Option<i32> {
    match latest_set(es, obj, power) {
        Some(p) => Some(p.1),
        None => None,
    }
}

fn set_pt_value(es: &Vec<crate::state::SetPtEffect>, obj: ObjectId, power: bool) -> (r: Option<i32>)
    ensures
        r == set_value(es@, obj, power),
{
    let mut best: Option<(u64, i32)> = None;
    let mut i: usize = 0;
    while i < es.len()
        invariant
            i <= es@.len(),
            best == latest_set(es@.take(i as int), obj, power),
        decreases es@.len() - i,
    {
        proof { assert(es@.take(i + 1).drop_last() =~= es@.take(i as int)); }
        let e = es[i];
        let v = if power { e.power } else { e.toughness };
        if e.object == obj && v.is_some() {
            let later = match best {
                Some(p) => p.0 <= e.timestamp,
                None => true,
            };
            if later {
                best = Some((e.timestamp, v.unwrap()));
            }
        }
        i = i + 1;
    }
    proof { assert(es@.take(i as int) =~= es@); }
    match best {
        Some(p) => Some(p.1),
        None => None,
    }
}

impl GameState {
    /// Whether the creature matches the filter, seen from the source and its
    /// controller.
    pub fn matches_filter(&self, creature_id: ObjectId, filter: &CreatureFilter, source_id: ObjectId,
        source_controller: PlayerId, registry: &CardRegistry) -> (b: bool)
        requires
            self.seated(),
        ensures
            b == sp_matches(*self, creature_id, *filter, source_id, source_controller, *registry, EFFECT_DEPTH as nat),
    {
        self.matches_filter_at(creature_id, filter, source_id, source_controller, registry, EFFECT_DEPTH)
    }

    /// Every continuous effect matching the query that applies to `id`,
    /// with the permanent providing it.
    pub fn walk_effects<'a>(&'a self, id: ObjectId, want: &EffectQuery, registry: &'a CardRegistry)
        -> (r: Vec<(&'a GameObject, &'a ContinuousEffect)>)
        requires
            self.seated(),
        ensures
            r@.len() == sp_hits(*self, id, *want, self.objects@, *registry, EFFECT_DEPTH as nat).len(),
            forall|k: int| 0 <= k < r@.len() ==> (*r@[k].0, *r@[k].1)
                == #[trigger] sp_hits(*self, id, *want, self.objects@, *registry, EFFECT_DEPTH as nat)[k],
    {
        self.walk_effects_at(id, want, registry, EFFECT_DEPTH)
    }

    /// Whether any continuous effect matching the query applies to `id`.
    pub fn has_effect(&self, id: ObjectId, want: &EffectQuery, registry: &CardRegistry) -> (b: bool)
        requires
            self.seated(),
        ensures
            b == (sp_hits(*self, id, *want, self.objects@, *registry, EFFECT_DEPTH as nat).len() > 0),
    {
        let hits = self.walk_effects_at(id, want, registry, EFFECT_DEPTH);
        hits.len() > 0
    }

    /// How many matching continuous effects apply to `id`.
    pub fn count_effect(&self, id: ObjectId, want: &EffectQuery, registry: &CardRegistry) -> (n: u32)
        requires
            self.seated(),
            sp_hits(*self, id, *want, self.objects@, *registry, EFFECT_DEPTH as nat).len() <= u32::MAX,
        ensures
            n == sp_hits(*self, id, *want, self.objects@, *registry, EFFECT_DEPTH as nat).len(),
    {
        let hits = self.walk_effects_at(id, want, registry, EFFECT_DEPTH);
        hits.len() as u32
    }

    /// Whether the permanent has the keyword (CR 702): printed, granted by a
    /// continuous effect, or granted until end of turn, and not removed.
    pub fn has_keyword(&self, creature_id: ObjectId, keyword: Keyword, registry: &CardRegistry) -> (b: bool)
        requires
            self.seated(),
        ensures
            b == sp_has_keyword(*self, creature_id, keyword, *registry, EFFECT_DEPTH as nat),
    {
        self.has_keyword_at(creature_id, keyword, registry, EFFECT_DEPTH)
    }

    /// Whether the creature may attack: nothing says it can't.
    pub fn can_attack(&self, creature_id: ObjectId, registry: &CardRegistry) -> (b: bool)
        requires
            self.seated(),
        ensures
            b == (sp_hits(*self, creature_id, EffectQuery::PreventAttack, self.objects@, *registry, EFFECT_DEPTH as nat).len() == 0),
    {
        !self.has_effect(creature_id, &EffectQuery::PreventAttack, registry)
    }

    /// Whether the creature may block: no static ability and no
    /// until-end-of-turn effect says it can't.
    pub fn can_block(&self, creature_id: ObjectId, registry: &CardRegistry) -> (b: bool)
        requires
            self.seated(),
        ensures
            b == (sp_hits(*self, creature_id, EffectQuery::PreventBlock, self.objects@, *registry, EFFECT_DEPTH as nat).len() == 0
                && !exists|i: int| 0 <= i < self.until_end_of_turn@.len()
                    && #[trigger] self.until_end_of_turn@[i] == (TemporaryEffect::CantBlock { target: creature_id })),
    {
        if self.has_effect(creature_id, &EffectQuery::PreventBlock, registry) {
            return false;
        }
        let mut i: usize = 0;
        while i < self.until_end_of_turn.len()
            invariant
                i <= self.until_end_of_turn@.len(),
                forall|j: int| 0 <= j < i ==> self.until_end_of_turn@[j] != (TemporaryEffect::CantBlock { target: creature_id }),
            decreases self.until_end_of_turn@.len() - i,
        {
            match &self.until_end_of_turn[i] {
                TemporaryEffect::CantBlock { target } => {
                    if *target == creature_id {
                        return false;
                    }
                },
                _ => {},
            }
            i = i + 1;
        }
        true
    }

    /// Whether an effect requires the creature to attack (CR 508.1d).
    pub fn must_attack(&self, creature_id: ObjectId, registry: &CardRegistry) -> (b: bool)
        requires
            self.seated(),
        ensures
            b == (sp_hits(*self, creature_id, EffectQuery::ForceAttack, self.objects@, *registry, EFFECT_DEPTH as nat).len() > 0),
    {
        self.has_effect(creature_id, &EffectQuery::ForceAttack, registry)
    }

    /// Whether an effect makes the creature unblockable (CR 509.1b).
    pub fn cant_be_blocked(&self, creature_id: ObjectId, registry: &CardRegistry) -> (b: bool)
        requires
            self.seated(),
        ensures
            b == (sp_hits(*self, creature_id, EffectQuery::CantBeBlocked, self.objects@, *registry, EFFECT_DEPTH as nat).len() > 0),
    {
        self.has_effect(creature_id, &EffectQuery::CantBeBlocked, registry)
    }

    /// Whether the permanent untaps in its controller's untap step (CR 502.2).
    pub fn untaps_normally(&self, id: ObjectId, registry: &CardRegistry) -> (b: bool)
        requires
            self.seated(),
        ensures
            b == (sp_hits(*self, id, EffectQuery::PreventUntap, self.objects@, *registry, EFFECT_DEPTH as nat).len() == 0),
    {
        !self.has_effect(id, &EffectQuery::PreventUntap, registry)
    }

    /// Effective power: see `sp_pt`.
    pub fn effective_power(&self, id: ObjectId, registry: &CardRegistry) -> (r: Option<i32>)
        requires
            self.seated(),
            fits_i32(sp_pt(*self, id, *registry, true)),
        ensures
            match r {
                Some(v) => sp_pt(*self, id, *registry, true) == Some(v as int),
                None => sp_pt(*self, id, *registry, true) is None,
            },
    {
        self.effective_pt(id, registry, true)
    }

    /// Effective toughness: see `sp_pt`.
    pub fn effective_toughness(&self, id: ObjectId, registry: &CardRegistry) -> (r: Option<i32>)
        requires
            self.seated(),
            fits_i32(sp_pt(*self, id, *registry, false)),
        ensures
            match r {
                Some(v) => sp_pt(*self, id, *registry, false) == Some(v as int),
                None => sp_pt(*self, id, *registry, false) is None,
            },
    {
        self.effective_pt(id, registry, false)
    }

    fn effective_pt(&self, id: ObjectId, registry: &CardRegistry, power: bool) -> (r: Option<i32>)
        requires
            self.seated(),
            fits_i32(sp_pt(*self, id, *registry, power)),
        ensures
            match r {
                Some(v) => sp_pt(*self, id, *registry, power) == Some(v as int),
                None => sp_pt(*self, id, *registry, power) is None,
            },
    {
        match self.effective_pt_wide(id, registry, power) {
            Some(v) => Some(v as i32),
            None => None,
        }
    }

    /// Effective power or toughness, exactly, whatever its size.
    pub(crate) fn effective_pt_wide(&self, id: ObjectId, registry: &CardRegistry, power: bool) -> (r: Option<i128>)
        requires
            self.seated(),
        ensures
            match r {
                Some(v) => sp_pt(*self, id, *registry, power) == Some(v as int),
                None => sp_pt(*self, id, *registry, power) is None,
            },
    {
        let o = match self.get_object(id) {
            Some(o) => o,
            None => return None,
        };
        let own = if power { o.power } else { o.toughness };
        let base: i32 = match registry.get(o.card_id) {
            Some(card) => if own.is_some() && o.is_transformed {
                match &card.back {
                    Some(b) => {
                        let printed = if power { b.power } else { b.toughness };
                        match printed {
                            Some(p) => p,
                            None => own.unwrap(),
                        }
                    },
                    None => own.unwrap(),
                }
            } else {
                match own {
                    Some(p) => p,
                    None => return None,
                }
            },
            None => match own {
                Some(p) => p,
                None => return None,
            },
        };
        if o.zone != Zone::Battlefield {
            return Some(base as i128);
        }
        let (set_power, set_toughness) = self.set_pt_for(id);
        let set_here = if power { set_power } else { set_toughness };
        let start: i32 = match set_here {
            Some(v) => v,
            None => base,
        };
        let (power_mods, toughness_mods) = self.continuous_pt_mods(id, registry);
        let mods: i128 = if power { power_mods } else { toughness_mods };
        let plus = crate::objects::get_counter_of(o, crate::types::CounterType::PlusOnePlusOne);
        let minus = crate::objects::get_counter_of(o, crate::types::CounterType::MinusOneMinusOne);
        let plus_i: i128 = if plus > 0x7fff_ffffu32 { 0x7fff_ffffi128 } else { plus as i128 };
        let minus_i: i128 = if minus > 0x7fff_ffffu32 { 0x7fff_ffffi128 } else { minus as i128 };
        let eot = self.eot_pt_sum(id, power);
        let n_eot: usize = self.until_end_of_turn.len();
        assert(n_eot as int <= 0xFFFF_FFFF_FFFF_FFFF);
        assert(-0x8000_0000_0000_0000_0000_0000 <= eot <= 0x8000_0000_0000_0000_0000_0000);
        let total: i128 = start as i128 + mods + plus_i - minus_i + eot;
        Some(total)
    }

    /// The layer-7b values in force for the object (CR 613.7a): for power
    /// and for toughness, the latest effect that sets it.
    fn set_pt_for(&self, object: ObjectId) -> (r: (Option<i32>, Option<i32>))
        ensures
            r.0 == set_value(self.set_pt_effects@, object, true),
            r.1 == set_value(self.set_pt_effects@, object, false),
    {
        (set_pt_value(&self.set_pt_effects, object, true), set_pt_value(&self.set_pt_effects, object, false))
    }

    /// The total power and toughness modification of the continuous effects
    /// that apply to the creature.
    fn continuous_pt_mods(&self, creature_id: ObjectId, registry: &CardRegistry) -> (r: (i128, i128))
        requires
            self.seated(),
        ensures
            r.0 == sum_pt(sp_hits(*self, creature_id, EffectQuery::ModifyPT, self.objects@, *registry, EFFECT_DEPTH as nat), true),
            r.1 == sum_pt(sp_hits(*self, creature_id, EffectQuery::ModifyPT, self.objects@, *registry, EFFECT_DEPTH as nat), false),
            -0x8000_0000_0000_0000_0000_0000 <= r.0 <= 0x8000_0000_0000_0000_0000_0000,
            -0x8000_0000_0000_0000_0000_0000 <= r.1 <= 0x8000_0000_0000_0000_0000_0000,
    {
        let hits = self.walk_effects_at(creature_id, &EffectQuery::ModifyPT, registry, EFFECT_DEPTH);
        let ghost h = sp_hits(*self, creature_id, EffectQuery::ModifyPT, self.objects@, *registry, EFFECT_DEPTH as nat);
        let mut power: i128 = 0;
        let mut toughness: i128 = 0;
        let mut k: usize = 0;
        while k < hits.len()
            invariant
                k <= hits@.len(),
                hits@.len() == h.len(),
                forall|m: int| 0 <= m < hits@.len() ==> (*hits@[m].0, *hits@[m].1) == #[trigger] h[m],
                power == sum_pt(h.take(k as int), true),
                toughness == sum_pt(h.take(k as int), false),
                -(k as int) * 0x8000_0000 <= power <= (k as int) * 0x8000_0000,
                -(k as int) * 0x8000_0000 <= toughness <= (k as int) * 0x8000_0000,
            decreases hits@.len() - k,
        {
            proof {
                assert(h.take(k + 1).drop_last() =~= h.take(k as int));
                assert((*hits@[k as int].0, *hits@[k as int].1) == h[k as int]);
            }
            match hits[k].1 {
                ContinuousEffect::ModifyPT { power: p, toughness: t, .. } => {
                    power = power + *p as i128;
                    toughness = toughness + *t as i128;
                },
                _ => {},
            }
            k = k + 1;
        }
        proof { assert(h.take(k as int) =~= h); }
        let n_hits: usize = hits.len();
        assert(n_hits as int <= 0xFFFF_FFFF_FFFF_FFFF);
        (power, toughness)
    }

    fn eot_pt_sum(&self, id: ObjectId, power: bool) -> (r: i128)
        ensures
            r == eot_pt(*self, self.until_end_of_turn@, id, power),
            -(self.until_end_of_turn@.len() as int) * 0x8000_0000 <= r <= (self.until_end_of_turn@.len() as int) * 0x8000_0000,
    {
        let t = &self.until_end_of_turn;
        let mut sum: i128 = 0;
        let mut i: usize = 0;
        while i < t.len()
            invariant
                i <= t@.len(),
                *t == self.until_end_of_turn,
                sum == eot_pt(*self, t@.take(i as int), id, power),
                -(i as int) * 0x8000_0000 <= sum <= (i as int) * 0x8000_0000,
            decreases t@.len() - i,
        {
            proof { assert(t@.take(i + 1).drop_last() =~= t@.take(i as int)); }
            match &t[i] {
                TemporaryEffect::ModifyPT { target, power_mod, toughness_mod } => {
                    if *target == id {
                        sum = sum + if power { *power_mod as i128 } else { *toughness_mod as i128 };
                    }
                },
                TemporaryEffect::ModifyPTWhileSourceInPlay { target, source, power_mod, toughness_mod } => {
                    if *target == id {
                        let present = match self.get_object(*source) {
                            Some(s) => s.zone == Zone::Battlefield,
                            None => false,
                        };
                        if present {
                            sum = sum + if power { *power_mod as i128 } else { *toughness_mod as i128 };
                        }
                    }
                },
                _ => {},
            }
            i = i + 1;
        }
        proof { assert(t@.take(i as int) =~= t@); }
        sum
    }
}
// ===== What until-end-of-turn P/T changes leave alone =====

/// Two states that differ at most in their until-end-of-turn effects, with
/// the same keywords removed and granted until end of turn.
pub open spec fn eot_keywords_agree(st: GameState, st2: GameState) -> bool {
    &&& st2 == (GameState { until_end_of_turn: st2.until_end_of_turn, ..st })
    &&& forall|c: ObjectId, k: Keyword| #[trigger] spec_keyword_removed(st2.until_end_of_turn@, c, k)
        == spec_keyword_removed(st.until_end_of_turn@, c, k)
    &&& forall|c: ObjectId, k: Keyword| #[trigger] spec_keyword_granted_eot(st2.until_end_of_turn@, c, k)
        == spec_keyword_granted_eot(st.until_end_of_turn@, c, k)
}

proof fn lemma_agree_matches(st: GameState, st2: GameState, c: ObjectId, f: CreatureFilter, src: ObjectId, ctrl: PlayerId,
    reg: CardRegistry, fuel: nat)
    requires
        eot_keywords_agree(st, st2),
    ensures
        sp_matches(st2, c, f, src, ctrl, reg, fuel) == sp_matches(st, c, f, src, ctrl, reg, fuel),
    decreases fuel, 1int, filter_size(f),
{
    match f {
        CreatureFilter::HasKeyword(k) => if fuel > 0 {
            lemma_agree_keyword(st, st2, c, k, reg, (fuel - 1) as nat);
        },
        CreatureFilter::And(fs) => lemma_agree_all(st, st2, c, fs@, src, ctrl, reg, fuel),
        CreatureFilter::Or(fs) => lemma_agree_any(st, st2, c, fs@, src, ctrl, reg, fuel),
        CreatureFilter::Not(b) => lemma_agree_matches(st, st2, c, *b, src, ctrl, reg, fuel),
        _ => {},
    }
}

proof fn lemma_agree_all(st: GameState, st2: GameState, c: ObjectId, fs: Seq<CreatureFilter>, src: ObjectId, ctrl: PlayerId,
    reg: CardRegistry, fuel: nat)
    requires
        eot_keywords_agree(st, st2),
    ensures
        sp_all(st2, c, fs, src, ctrl, reg, fuel) == sp_all(st, c, fs, src, ctrl, reg, fuel),
    decreases fuel, 1int, filters_size(fs),
{
    if fs.len() > 0 {
        lemma_agree_all(st, st2, c, fs.drop_last(), src, ctrl, reg, fuel);
        lemma_agree_matches(st, st2, c, fs.last(), src, ctrl, reg, fuel);
    }
}

proof fn lemma_agree_any(st: GameState, st2: GameState, c: ObjectId, fs: Seq<CreatureFilter>, src: ObjectId, ctrl: PlayerId,
    reg: CardRegistry, fuel: nat)
    requires
        eot_keywords_agree(st, st2),
    ensures
        sp_any(st2, c, fs, src, ctrl, reg, fuel) == sp_any(st, c, fs, src, ctrl, reg, fuel),
    decreases fuel, 1int, filters_size(fs),
{
    if fs.len() > 0 {
        lemma_agree_any(st, st2, c, fs.drop_last(), src, ctrl, reg, fuel);
        lemma_agree_matches(st, st2, c, fs.last(), src, ctrl, reg, fuel);
    }
}

proof fn lemma_agree_applies(st: GameState, st2: GameState, c: ObjectId, scope: EffectScope, src: ObjectId, ctrl: PlayerId,
    reg: CardRegistry, fuel: nat)
    requires
        eot_keywords_agree(st, st2),
    ensures
        sp_applies(st2, c, scope, src, ctrl, reg, fuel) == sp_applies(st, c, scope, src, ctrl, reg, fuel),
    decreases fuel, 2int, 0nat,
{
    match scope {
        EffectScope::Global(f) => lemma_agree_matches(st, st2, c, f, src, ctrl, reg, fuel),
        EffectScope::GlobalOther(f) => lemma_agree_matches(st, st2, c, f, src, ctrl, reg, fuel),
        _ => {},
    }
}

proof fn lemma_agree_condition(st: GameState, st2: GameState, cond: EffectCondition, src: ObjectId, ctrl: PlayerId,
    reg: CardRegistry, fuel: nat)
    requires
        eot_keywords_agree(st, st2),
    ensures
        sp_condition(st2, cond, src, ctrl, reg, fuel) == sp_condition(st, cond, src, ctrl, reg, fuel),
    decreases fuel, 2int, 0nat,
{
    match cond {
        EffectCondition::SelfHasKeyword(k) => if fuel > 0 {
            lemma_agree_keyword(st, st2, src, k, reg, (fuel - 1) as nat);
        },
        EffectCondition::YouControlSubtype(s) => lemma_agree_controls(st, st2, ctrl, s@, reg),
        EffectCondition::OpponentControlsSubtype(s) => lemma_agree_controls(st, st2, spec_next_player(st, ctrl), s@, reg),
        _ => {},
    }
}

proof fn lemma_agree_controls(st: GameState, st2: GameState, who: PlayerId, s: Seq<char>, reg: CardRegistry)
    requires
        eot_keywords_agree(st, st2),
    ensures
        sp_controls_subtype(st2, who, s, reg) == sp_controls_subtype(st, who, s, reg),
{
    assert forall|x: ObjectId| #[trigger] st2.spec_has_subtype(x, s, &reg) == st.spec_has_subtype(x, s, &reg) by {
        assert(st2.spec_obj(x) == st.spec_obj(x));
        assert(st2.spec_face(x, &reg) == st.spec_face(x, &reg));
    }
    if sp_controls_subtype(st2, who, s, reg) {
        let i = choose|i: int| 0 <= i < st2.objects@.len() && st2.objects@[i].zone == Zone::Battlefield
            && st2.objects@[i].controller == who && #[trigger] st2.spec_has_subtype(st2.objects@[i].id, s, &reg);
        assert(st.spec_has_subtype(st.objects@[i].id, s, &reg));
    }
    if sp_controls_subtype(st, who, s, reg) {
        let i = choose|i: int| 0 <= i < st.objects@.len() && st.objects@[i].zone == Zone::Battlefield
            && st.objects@[i].controller == who && #[trigger] st.spec_has_subtype(st.objects@[i].id, s, &reg);
        assert(st2.spec_has_subtype(st2.objects@[i].id, s, &reg));
    }
}

proof fn lemma_agree_effect_ok(st: GameState, st2: GameState, c: ObjectId, q: EffectQuery, src: GameObject, e: ContinuousEffect,
    reg: CardRegistry, fuel: nat)
    requires
        eot_keywords_agree(st, st2),
    ensures
        sp_effect_ok(st2, c, q, src, e, reg, fuel) == sp_effect_ok(st, c, q, src, e, reg, fuel),
    decreases fuel, 3int, 0nat,
{
    let (inner, cond) = e.spec_unwrap_condition();
    if inner.spec_scope() is Some {
        lemma_agree_applies(st, st2, c, *inner.spec_scope().unwrap(), src.id, src.controller, reg, fuel);
    }
    match cond {
        Some(k) => lemma_agree_condition(st, st2, *k, src.id, src.controller, reg, fuel),
        None => {},
    }
}

proof fn lemma_agree_effect_hits(st: GameState, st2: GameState, c: ObjectId, q: EffectQuery, src: GameObject,
    es: Seq<ContinuousEffect>, reg: CardRegistry, fuel: nat)
    requires
        eot_keywords_agree(st, st2),
    ensures
        sp_effect_hits(st2, c, q, src, es, reg, fuel) == sp_effect_hits(st, c, q, src, es, reg, fuel),
    decreases fuel, 4int, es.len(),
{
    if es.len() > 0 {
        lemma_agree_effect_hits(st, st2, c, q, src, es.drop_last(), reg, fuel);
        lemma_agree_effect_ok(st, st2, c, q, src, es.last(), reg, fuel);
    }
}

proof fn lemma_agree_hits(st: GameState, st2: GameState, c: ObjectId, q: EffectQuery, objs: Seq<GameObject>,
    reg: CardRegistry, fuel: nat)
    requires
        eot_keywords_agree(st, st2),
    ensures
        sp_hits(st2, c, q, objs, reg, fuel) == sp_hits(st, c, q, objs, reg, fuel),
    decreases fuel, 5int, objs.len(),
{
    if objs.len() > 0 {
        lemma_agree_hits(st, st2, c, q, objs.drop_last(), reg, fuel);
        let src = objs.last();
        lemma_agree_effect_hits(st, st2, c, q, src, st.spec_effects(src.id, &reg), reg, fuel);
    }
}

proof fn lemma_agree_keyword(st: GameState, st2: GameState, c: ObjectId, k: Keyword, reg: CardRegistry, fuel: nat)
    requires
        eot_keywords_agree(st, st2),
    ensures
        sp_has_keyword(st2, c, k, reg, fuel) == sp_has_keyword(st, c, k, reg, fuel),
    decreases fuel, 6int, 0nat,
{
    lemma_agree_hits(st, st2, c, EffectQuery::GrantKeyword(k), st.objects@, reg, fuel);
    assert(spec_keyword_removed(st2.until_end_of_turn@, c, k) == spec_keyword_removed(st.until_end_of_turn@, c, k));
    assert(spec_keyword_granted_eot(st2.until_end_of_turn@, c, k) == spec_keyword_granted_eot(st.until_end_of_turn@, c, k));
}

/// The until-end-of-turn bonuses read the board only through the objects.
proof fn lemma_eot_pt_objects(st: GameState, st2: GameState, t: Seq<TemporaryEffect>, id: ObjectId, power: bool)
    requires
        st2.objects == st.objects,
    ensures
        eot_pt(st2, t, id, power) == eot_pt(st, t, id, power),
    decreases t.len(),
{
    if t.len() > 0 {
        lemma_eot_pt_objects(st, st2, t.drop_last(), id, power);
    }
}

/// Adding an until-end-of-turn P/T change leaves every object but its
/// target with the effective power and toughness it had; the target, on
/// the battlefield, gets the change on top of what it had.
pub proof fn law_eot_pump_spares_others(st: GameState, st2: GameState, reg: CardRegistry, id: ObjectId, target: ObjectId,
    power_mod: i32, toughness_mod: i32)
    requires
        st2 == (GameState { until_end_of_turn: st2.until_end_of_turn, ..st }),
        st2.until_end_of_turn@ == st.until_end_of_turn@.push(TemporaryEffect::ModifyPT { target, power_mod, toughness_mod }),
    ensures
        id != target ==> sp_pt(st2, id, reg, true) == sp_pt(st, id, reg, true)
            && sp_pt(st2, id, reg, false) == sp_pt(st, id, reg, false),
        st.in_zone(target, Zone::Battlefield) ==> {
            &&& sp_pt(st2, target, reg, true) == match sp_pt(st, target, reg, true) {
                Some(v) => Some(v + power_mod as int),
                None => None,
            }
            &&& sp_pt(st2, target, reg, false) == match sp_pt(st, target, reg, false) {
                Some(v) => Some(v + toughness_mod as int),
                None => None,
            }
        },
        !st.in_zone(target, Zone::Battlefield) ==> sp_pt(st2, target, reg, true) == sp_pt(st, target, reg, true)
            && sp_pt(st2, target, reg, false) == sp_pt(st, target, reg, false),
{
    let t = st.until_end_of_turn@;
    let t2 = st2.until_end_of_turn@;
    let e = TemporaryEffect::ModifyPT { target, power_mod, toughness_mod };
    assert forall|c: ObjectId, k: Keyword| #[trigger] spec_keyword_removed(t2, c, k) == spec_keyword_removed(t, c, k) by {
        if spec_keyword_removed(t2, c, k) {
            let i = choose|i: int| 0 <= i < t2.len() && #[trigger] is_keyword_removal(t2[i], c, k);
            assert(i < t.len() && t[i] == t2[i]);
        }
        if spec_keyword_removed(t, c, k) {
            let i = choose|i: int| 0 <= i < t.len() && #[trigger] is_keyword_removal(t[i], c, k);
            assert(t2[i] == t[i]);
        }
    }
    assert forall|c: ObjectId, k: Keyword| #[trigger] spec_keyword_granted_eot(t2, c, k) == spec_keyword_granted_eot(t, c, k) by {
        if spec_keyword_granted_eot(t2, c, k) {
            let i = choose|i: int| 0 <= i < t2.len() && #[trigger] is_keyword_grant(t2[i], c, k);
            assert(i < t.len() && t[i] == t2[i]);
        }
        if spec_keyword_granted_eot(t, c, k) {
            let i = choose|i: int| 0 <= i < t.len() && #[trigger] is_keyword_grant(t[i], c, k);
            assert(t2[i] == t[i]);
        }
    }
    assert(eot_keywords_agree(st, st2));
    assert(t2.drop_last() =~= t);
    lemma_eot_pt_objects(st, st2, t, id, true);
    lemma_eot_pt_objects(st, st2, t, id, false);
    lemma_eot_pt_objects(st, st2, t, target, true);
    lemma_eot_pt_objects(st, st2, t, target, false);
    lemma_agree_hits(st, st2, id, EffectQuery::ModifyPT, st.objects@, reg, EFFECT_DEPTH as nat);
    lemma_agree_hits(st, st2, target, EffectQuery::ModifyPT, st.objects@, reg, EFFECT_DEPTH as nat);
}

} // verus!
