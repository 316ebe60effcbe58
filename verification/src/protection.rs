//! Protection (CR 702.16) and hexproof of permanents and players.

use vstd::prelude::*;
use crate::cards::CardRegistry;
use crate::effects::{sp_hits, sp_matches, EffectQuery, EFFECT_DEPTH};
use crate::ids::{ObjectId, PlayerId};
use crate::state::{GameObject, GameState, TemporaryEffect};
use crate::text::{contains_string, views};
use crate::types::{Color, ContinuousEffect, Zone};

verus! {

/// A protection effect on the target that stops this source: protection
/// from one of the source's subtypes, or from a filter the source matches
/// (read against the permanent giving the protection).
pub open spec fn protection_stops(st: GameState, source: ObjectId, reg: CardRegistry, hit: (GameObject, ContinuousEffect)) -> bool {
    match hit.1 {
        ContinuousEffect::ProtectionFromSubtype { subtype, .. } => st.spec_subtypes(source, &reg).contains(subtype@),
        ContinuousEffect::ProtectionFrom { filter, .. } =>
            sp_matches(st, source, filter, hit.0.id, hit.0.controller, reg, EFFECT_DEPTH as nat),
        _ => false,
    }
}

/// The controller of an object, or the first seat when there is none.
pub open spec fn controller_or_first(st: GameState, id: ObjectId) -> PlayerId {
    match st.spec_obj(id) {
        Some(o) => o.controller,
        None => PlayerId(0),
    }
}

/// An until-end-of-turn protection grant on the target that stops this
/// source; the protected permanent stands in as the grant's source.
pub open spec fn grant_stops(st: GameState, target: ObjectId, source: ObjectId, reg: CardRegistry, e: TemporaryEffect) -> bool {
    match e {
        TemporaryEffect::GrantProtection { target: t, filter } => t == target
            && sp_matches(st, source, filter, target, controller_or_first(st, target), reg, EFFECT_DEPTH as nat),
        _ => false,
    }
}

/// Whether the target has protection from the source.
pub open spec fn spec_has_protection_from(st: GameState, target: ObjectId, source: ObjectId, reg: CardRegistry) -> bool {
    let hits = sp_hits(st, target, EffectQuery::Protection, st.objects@, reg, EFFECT_DEPTH as nat);
    (exists|k: int| 0 <= k < hits.len() && #[trigger] protection_stops(st, source, reg, hits[k]))
    || (exists|j: int| 0 <= j < st.until_end_of_turn@.len() && #[trigger] grant_stops(st, target, source, reg, st.until_end_of_turn@[j]))
}

/// A permanent of `player`'s whose card gives its controller hexproof.
pub open spec fn grants_hexproof(reg: CardRegistry, player: PlayerId, o: GameObject) -> bool {
    &&& o.zone == Zone::Battlefield
    &&& o.controller == player
    &&& reg.spec_get(o.card_id) matches Some(d) && d.grants_player_hexproof
}

/// A permanent of `player`'s whose card gives its controller protection
/// from `color`.
pub open spec fn grants_protection(reg: CardRegistry, player: PlayerId, color: Color, o: GameObject) -> bool {
    &&& o.zone == Zone::Battlefield
    &&& o.controller == player
    &&& reg.spec_get(o.card_id) matches Some(d) && d.grants_player_protection_from@.contains(color)
}

/// Whether `player` has protection from `color`.
pub open spec fn spec_player_protected(st: GameState, reg: CardRegistry, player: PlayerId, color: Color) -> bool {
    exists|k: int| 0 <= k < st.objects@.len() && #[trigger] grants_protection(reg, player, color, st.objects@[k])
}

fn contains_color(v: &Vec<Color>, c: Color) -> (b: bool)
    ensures
        b == v@.contains(c),
{
    let mut i: usize = 0;
    while i < v.len()
        invariant
            i <= v@.len(),
            forall|j: int| 0 <= j < i ==> v@[j] != c,
        decreases v@.len() - i,
    {
        if v[i] == c {
            return true;
        }
        i = i + 1;
    }
    false
}

impl GameState {
    /// Whether the target has protection from the source (CR 702.16):
    /// from one of the source's subtypes, from a filter it matches, or from
    /// an until-end-of-turn grant. Used for targeting, blocking and damage.
    pub fn has_protection_from(&self, target_id: ObjectId, source_id: ObjectId, registry: &CardRegistry) -> (b: bool)
        requires
            self.seated(),
        ensures
            b == spec_has_protection_from(*self, target_id, source_id, *registry),
    {
        let source_subtypes = self.subtypes_of(source_id, registry);
        let hits = self.walk_effects(target_id, &EffectQuery::Protection, registry);
        let ghost hs = sp_hits(*self, target_id, EffectQuery::Protection, self.objects@, *registry, EFFECT_DEPTH as nat);
        let mut k: usize = 0;
        while k < hits.len()
            invariant
                self.seated(),
                k <= hits@.len(),
                hs == sp_hits(*self, target_id, EffectQuery::Protection, self.objects@, *registry, EFFECT_DEPTH as nat),
                hits@.len() == hs.len(),
                forall|m: int| 0 <= m < hits@.len() ==> (*hits@[m].0, *hits@[m].1) == #[trigger] hs[m],
                views(source_subtypes@) == self.spec_subtypes(source_id, registry),
                forall|m: int| 0 <= m < k ==> !#[trigger] protection_stops(*self, source_id, *registry, hs[m]),
            decreases hits@.len() - k,
        {
            let (src, e) = hits[k];
            proof { assert((*src, *e) == hs[k as int]); }
            let stops = match e {
                ContinuousEffect::ProtectionFromSubtype { subtype, .. } => contains_string(&source_subtypes, subtype.as_str()),
                ContinuousEffect::ProtectionFrom { filter, .. } =>
                    self.matches_filter(source_id, filter, src.id, src.controller, registry),
                _ => false,
            };
            if stops {
                proof {
                    assert(protection_stops(*self, source_id, *registry, hs[k as int]));
                    assert(0 <= k < hs.len());
                    assert(hs == sp_hits(*self, target_id, EffectQuery::Protection, self.objects@, *registry, EFFECT_DEPTH as nat));
                }
                return true;
            }
            k = k + 1;
        }
        let target_controller = match self.get_object(target_id) {
            Some(o) => o.controller,
            None => PlayerId(0),
        };
        let mut j: usize = 0;
        while j < self.until_end_of_turn.len()
            invariant
                self.seated(),
                j <= self.until_end_of_turn@.len(),
                target_controller == controller_or_first(*self, target_id),
                hs == sp_hits(*self, target_id, EffectQuery::Protection, self.objects@, *registry, EFFECT_DEPTH as nat),
                forall|m: int| 0 <= m < hs.len() ==> !#[trigger] protection_stops(*self, source_id, *registry, hs[m]),
                forall|m: int| 0 <= m < j ==> !#[trigger] grant_stops(*self, target_id, source_id, *registry, self.until_end_of_turn@[m]),
            decreases self.until_end_of_turn@.len() - j,
        {
            match &self.until_end_of_turn[j] {
                TemporaryEffect::GrantProtection { target, filter } => {
                    if *target == target_id && self.matches_filter(source_id, filter, target_id, target_controller, registry) {
                        proof { assert(grant_stops(*self, target_id, source_id, *registry, self.until_end_of_turn@[j as int])); }
                        return true;
                    }
                },
                _ => {},
            }
            j = j + 1;
        }
        false
    }

    /// Whether a player has hexproof, from a permanent of theirs whose card
    /// gives it (CR 702.11d).
    pub fn player_has_hexproof(&self, player: PlayerId, registry: &CardRegistry) -> (b: bool)
        ensures
            b == exists|k: int| 0 <= k < self.objects@.len() && #[trigger] grants_hexproof(*registry, player, self.objects@[k]),
    {
        let mut k: usize = 0;
        while k < self.objects.len()
            invariant
                k <= self.objects@.len(),
                forall|m: int| 0 <= m < k ==> !#[trigger] grants_hexproof(*registry, player, self.objects@[m]),
            decreases self.objects@.len() - k,
        {
            let o = &self.objects[k];
            if o.zone == Zone::Battlefield && o.controller == player {
                match registry.get(o.card_id) {
                    Some(d) => {
                        if d.grants_player_hexproof {
                            proof { assert(grants_hexproof(*registry, player, self.objects@[k as int])); }
                            return true;
                        }
                    },
                    None => {},
                }
            }
            k = k + 1;
        }
        false
    }

    /// Whether a player has protection from `color`, from a permanent of
    /// theirs whose card gives it (CR 702.16).
    pub fn player_has_protection_from(&self, player: PlayerId, color: Color, registry: &CardRegistry) -> (b: bool)
        ensures
            b == spec_player_protected(*self, *registry, player, color),
    {
        let mut k: usize = 0;
        while k < self.objects.len()
            invariant
                k <= self.objects@.len(),
                forall|m: int| 0 <= m < k ==> !#[trigger] grants_protection(*registry, player, color, self.objects@[m]),
            decreases self.objects@.len() - k,
        {
            let o = &self.objects[k];
            if o.zone == Zone::Battlefield && o.controller == player {
                match registry.get(o.card_id) {
                    Some(d) => {
                        if contains_color(&d.grants_player_protection_from, color) {
                            proof { assert(grants_protection(*registry, player, color, self.objects@[k as int])); }
                            return true;
                        }
                    },
                    None => {},
                }
            }
            k = k + 1;
        }
        false
    }

    /// Whether the Aura can be attached to the player: not when the player
    /// has protection from one of its colors (CR 702.16b, 303.4h).
    pub fn player_can_be_enchanted_by(&self, aura_id: ObjectId, player: PlayerId, registry: &CardRegistry) -> (b: bool)
        ensures
            b == !exists|i: int| 0 <= i < self.spec_colors(aura_id, registry).len()
                && #[trigger] spec_player_protected(*self, *registry, player, self.spec_colors(aura_id, registry)[i]),
    {
        let colors = self.colors_of(aura_id, registry);
        let mut i: usize = 0;
        while i < colors.len()
            invariant
                i <= colors@.len(),
                colors@ == self.spec_colors(aura_id, registry),
                forall|m: int| 0 <= m < i ==> !#[trigger] spec_player_protected(*self, *registry, player, colors@[m]),
            decreases colors@.len() - i,
        {
            if self.player_has_protection_from(player, colors[i], registry) {
                return false;
            }
            i = i + 1;
        }
        true
    }
}

} // verus!
