//! State-based actions (CR 704): checked and performed, all applicable ones
//! at once, again and again until a check finds nothing to do (CR 704.3).

use vstd::prelude::*;
use crate::actions::Target;
use crate::cards::CardRegistry;
use crate::events::{GameEvent, LossReason};
use crate::ids::{CardId, ObjectId, PlayerId};
use crate::objects::{count_alive, counter_index, spec_counter, spec_remove_counters};
use crate::state::{
    AwaitingAction, GameObject, GameResult, GameState, LogLevel, PendingEffect, PlayerState, ResolutionChoiceKind,
};
use crate::types::{CardType, CounterType, Keyword, Zone};
use crate::zones::{lemma_move_away, move_ok};
use crate::util::str_eq;
use crate::effects::{sp_has_keyword, sp_pt, EFFECT_DEPTH};

verus! {

/// What the state-based actions need of a state: players to lose and win,
/// every object owned by one of them, every controller a seat, and on each
/// object at most one count per kind of counter.
pub open spec fn sba_ok(st: GameState) -> bool {
    &&& st.wf()
    &&& 0 < st.players@.len() <= 255
    &&& forall|i: int| 0 <= i < st.objects@.len() ==> (#[trigger] st.objects@[i]).owner.0 < st.players@.len()
        && st.objects@[i].controller.0 < 255
        && crate::laws::kinds_distinct(st.objects@[i].counters@)
}

/// The sum of a permanent's counters.
pub open spec fn counter_total(c: Seq<(CounterType, u32)>) -> nat
    decreases c.len(),
{
    if c.len() == 0 {
        0
    } else {
        counter_total(c.drop_last()) + c.last().1 as nat
    }
}

/// How much an object can still take part in state-based actions: its
/// existence, and on the battlefield its presence, its regeneration
/// shields, its counters and its attachment.
pub open spec fn weight(o: GameObject) -> nat {
    let on = if o.zone == Zone::Battlefield {
        (1 + o.regeneration_shields + counter_total(o.counters@) + if o.attached_to is Some { 1int } else { 0int }) as nat
    } else {
        0nat
    };
    1 + on
}

/// The weights of all objects.
pub open spec fn weight_sum(objs: Seq<GameObject>) -> nat
    decreases objs.len(),
{
    if objs.len() == 0 {
        0
    } else {
        weight_sum(objs.drop_last()) + weight(objs.last())
    }
}

/// A measure every state-based action lowers: object weights, players
/// still in the game, and an undecided game.
pub open spec fn sba_measure(st: GameState) -> nat {
    weight_sum(st.objects@) + count_alive(st.players@) + if st.result is None { 1nat } else { 0nat }
}

/// Replacing one object changes the sum by the difference in weight.
pub proof fn lemma_weight_update(a: Seq<GameObject>, i: int, x: GameObject)
    requires
        0 <= i < a.len(),
    ensures
        weight_sum(a.update(i, x)) == weight_sum(a) - weight(a[i]) + weight(x),
    decreases a.len(),
{
    if i < a.len() - 1 {
        assert(a.update(i, x).drop_last() =~= a.drop_last().update(i, x));
        lemma_weight_update(a.drop_last(), i, x);
    } else {
        assert(a.update(i, x).drop_last() =~= a.drop_last());
    }
}

/// Removing one object takes its weight out of the sum.
pub proof fn lemma_weight_remove(a: Seq<GameObject>, i: int)
    requires
        0 <= i < a.len(),
    ensures
        weight_sum(a.remove(i)) == weight_sum(a) - weight(a[i]),
    decreases a.len(),
{
    if i < a.len() - 1 {
        assert(a.remove(i).drop_last() =~= a.drop_last().remove(i));
        assert(a.remove(i).last() == a.last());
        lemma_weight_remove(a.drop_last(), i);
    } else {
        assert(a.remove(i) =~= a.drop_last());
    }
}

/// The number of players still in depends only on who has lost.
pub proof fn lemma_alive_same(a: Seq<PlayerState>, b: Seq<PlayerState>)
    requires
        a.len() == b.len(),
        forall|p: int| 0 <= p < a.len() ==> (#[trigger] a[p]).lost == b[p].lost,
    ensures
        count_alive(a) == count_alive(b),
    decreases a.len(),
{
    if a.len() > 0 {
        lemma_alive_same(a.drop_last(), b.drop_last());
    }
}

/// A player who had not lost losing takes one off the count.
pub proof fn lemma_alive_lose(a: Seq<PlayerState>, p: int, x: PlayerState)
    requires
        0 <= p < a.len(),
        !a[p].lost,
        x.lost,
    ensures
        count_alive(a.update(p, x)) + 1 == count_alive(a),
    decreases a.len(),
{
    if p < a.len() - 1 {
        assert(a.update(p, x).drop_last() =~= a.drop_last().update(p, x));
        lemma_alive_lose(a.drop_last(), p, x);
    } else {
        assert(a.update(p, x).drop_last() =~= a.drop_last());
    }
}

/// With one entry per kind, the entry found for a kind is the only one.
proof fn lemma_index_unique(c: Seq<(CounterType, u32)>, ct: CounterType, k: int)
    requires
        crate::laws::kinds_distinct(c),
        0 <= k < c.len(),
        c[k].0 == ct,
    ensures
        counter_index(c, ct) == Some(k),
{
    crate::laws::lemma_counter_index_facts(c, ct);
}

/// Removing counters of one kind, with one entry per kind: that kind drops
/// by the number removed (to no fewer than none), every other kind keeps
/// its count, and there is still one entry per kind.
proof fn lemma_remove_counts(c: Seq<(CounterType, u32)>, ct: CounterType, n: u32, other: CounterType)
    requires
        crate::laws::kinds_distinct(c),
    ensures
        crate::laws::kinds_distinct(spec_remove_counters(c, ct, n)),
        spec_counter(spec_remove_counters(c, ct, n), ct) == (if spec_counter(c, ct) <= n { 0 } else { spec_counter(c, ct) - n }),
        other != ct ==> spec_counter(spec_remove_counters(c, ct, n), other) == spec_counter(c, other),
{
    crate::laws::lemma_counter_index_facts(c, ct);
    crate::laws::lemma_counter_index_facts(c, other);
    let r = spec_remove_counters(c, ct, n);
    match counter_index(c, ct) {
        Some(k) => {
            if c[k].1 <= n {
                assert forall|a: int, b: int| 0 <= a < b < r.len() implies r[a].0 != r[b].0 by {
                    let a0 = if a < k { a } else { a + 1 };
                    let b0 = if b < k { b } else { b + 1 };
                    assert(r[a] == c[a0] && r[b] == c[b0]);
                }
                crate::laws::lemma_counter_index_facts(r, ct);
                if counter_index(r, ct) is Some {
                    let x = counter_index(r, ct).unwrap();
                    let x0 = if x < k { x } else { x + 1 };
                    assert(r[x] == c[x0]);
                }
                if other != ct {
                    crate::laws::lemma_counter_index_facts(r, other);
                    match counter_index(c, other) {
                        Some(j) => {
                            let j2 = if j < k { j } else { j - 1 };
                            assert(j != k);
                            assert(r[j2] == c[j]);
                            lemma_index_unique(r, other, j2);
                        },
                        None => {
                            if counter_index(r, other) is Some {
                                let x = counter_index(r, other).unwrap();
                                let x0 = if x < k { x } else { x + 1 };
                                assert(r[x] == c[x0]);
                            }
                        },
                    }
                }
            } else {
                assert forall|a: int, b: int| 0 <= a < b < r.len() implies r[a].0 != r[b].0 by {
                    assert(r[a].0 == c[a].0 && r[b].0 == c[b].0);
                }
                lemma_index_unique(r, ct, k);
                if other != ct {
                    crate::laws::lemma_counter_index_facts(r, other);
                    match counter_index(c, other) {
                        Some(j) => {
                            assert(r[j] == c[j]);
                            lemma_index_unique(r, other, j);
                        },
                        None => {
                            if counter_index(r, other) is Some {
                                let x = counter_index(r, other).unwrap();
                                assert(r[x].0 == c[x].0);
                            }
                        },
                    }
                }
            }
        },
        None => {},
    }
}

impl GameState {
    /// Move an object to its owner's graveyard as a state-based action.
    fn sba_to_graveyard(&mut self, id: ObjectId, registry: &CardRegistry)
        requires
            sba_ok(*old(self)),
        ensures
            sba_ok(*final(self)),
            sba_measure(*final(self)) <= sba_measure(*old(self)),
            old(self).in_zone(id, Zone::Battlefield) ==> sba_measure(*final(self)) < sba_measure(*old(self)),
            final(self).result == old(self).result,
            final(self).awaiting_action == old(self).awaiting_action,
            final(self).players@.len() == old(self).players@.len(),
            forall|p: int| 0 <= p < old(self).players@.len() ==> (#[trigger] final(self).players@[p]).lost == old(self).players@[p].lost
                && final(self).players@[p].life == old(self).players@[p].life
                && final(self).players@[p].has_drawn_from_empty == old(self).players@[p].has_drawn_from_empty && final(self).players@[p].id == old(self).players@[p].id && players_rest(old(self).players@[p], final(self).players@[p]),
            final(self).objects@.len() == old(self).objects@.len(),
            forall|k: int| 0 <= k < old(self).objects@.len() ==> (#[trigger] final(self).objects@[k]).id == old(self).objects@[k].id,
            forall|k: int| 0 <= k < old(self).objects@.len() && old(self).objects@[k].id != id ==> #[trigger] final(self).objects@[k] == old(self).objects@[k],
            forall|k: int| 0 <= k < old(self).objects@.len() && old(self).objects@[k].id == id ==> (#[trigger] final(self).objects@[k]).zone == Zone::Graveyard
                && final(self).objects@[k].owner == old(self).objects@[k].owner && final(self).objects@[k].is_token == old(self).objects@[k].is_token,
    {
        let ghost st = *self;
        match self.find_index(id) {
            Some(i) => {
                proof {
                    assert(st.objects@[i as int].owner.0 < st.players@.len());
                    assert(move_ok(st, id, Zone::Graveyard, None, *registry));
                }
                self.move_object(id, Zone::Graveyard, registry);
                proof {
                    lemma_move_away(st, *self, id, Zone::Graveyard, *registry);
                    let n = self.objects@[i as int];
                    lemma_weight_update(st.objects@, i as int, n);
                    lemma_alive_same(st.players@, self.players@);
                    assert forall|k: int| 0 <= k < self.objects@.len() implies (#[trigger] self.objects@[k]).owner.0 < self.players@.len()
                        && self.objects@[k].controller.0 < 255 && crate::laws::kinds_distinct(self.objects@[k].counters@) by {
                        if k != i {
                            assert(self.objects@[k] == st.objects@[k]);
                        }
                    }
                    assert forall|a: int, b: int| 0 <= a < b < self.objects@.len() implies
                        self.objects@[a].id.0 < self.objects@[b].id.0 by {
                        assert(self.objects@[a].id == st.objects@[a].id);
                        assert(self.objects@[b].id == st.objects@[b].id);
                    }
                    assert forall|a: int| 0 <= a < self.objects@.len() implies self.objects@[a].id.0 < self.next_object_id by {
                        assert(self.objects@[a].id == st.objects@[a].id);
                    }
                    assert forall|k: int| 0 <= k < st.objects@.len() && st.objects@[k].id == id implies k == i as int by {
                        crate::state::lemma_find_unique(st.objects@, st.next_object_id, id, k);
                        crate::state::lemma_find_unique(st.objects@, st.next_object_id, id, i as int);
                    }
                }
            },
            None => {
                proof { crate::state::lemma_find_from(st.objects@, id, 0); }
            },
        }
    }
}


/// No player who should have lost is still in (CR 704.5a, 704.5b).
pub open spec fn players_settled(st: GameState) -> bool {
    forall|p: int| 0 <= p < st.players@.len() ==> (#[trigger] st.players@[p]).lost
        || (st.players@[p].life > 0 && !st.players@[p].has_drawn_from_empty)
}

/// The result a game ends with once the loss conditions are applied to
/// its players: the one player left wins, and with none left it is a draw
/// (CR 104.2a, 104.4a).
pub open spec fn outcome_after_loss(ps: Seq<PlayerState>, r: GameResult) -> bool {
    match r {
        GameResult::Winner(id) => exists|w: int| 0 <= w < ps.len() && !loses(#[trigger] ps[w]) && ps[w].id == id
            && forall|q: int| 0 <= q < ps.len() && q != w ==> loses(#[trigger] ps[q]),
        GameResult::Draw => forall|p: int| 0 <= p < ps.len() ==> loses(#[trigger] ps[p]),
    }
}

/// An outcome read off players after the loss conditions is the outcome of
/// the players before them.
proof fn lemma_outcome_loses(a: Seq<PlayerState>, b: Seq<PlayerState>, r: GameResult)
    requires
        a.len() == b.len(),
        forall|p: int| 0 <= p < a.len() ==> (#[trigger] b[p]).lost == loses(a[p]) && b[p].id == a[p].id,
        outcome_of(b, r),
    ensures
        outcome_after_loss(a, r),
{
    match r {
        GameResult::Winner(id) => {
            let w = choose|w: int| 0 <= w < b.len() && !(#[trigger] b[w]).lost && b[w].id == id
                && forall|q: int| 0 <= q < b.len() && q != w ==> (#[trigger] b[q]).lost;
            assert(!loses(a[w]) && a[w].id == id);
            assert forall|q: int| 0 <= q < a.len() && q != w implies loses(#[trigger] a[q]) by {
                assert(b[q].lost);
            }
        },
        GameResult::Draw => {
            assert forall|p: int| 0 <= p < a.len() implies loses(#[trigger] a[p]) by {
                assert(b[p].lost);
            }
        },
    }
}

/// A player as state-based actions leave them: only whether they have
/// lost and the order of their library and graveyard can change.
pub open spec fn players_rest(a: PlayerState, b: PlayerState) -> bool {
    b == (PlayerState { lost: b.lost, library_order: b.library_order, graveyard_order: b.graveyard_order, ..a })
}

/// Whether a player has lost once the loss conditions are applied: they
/// had already, or are at 0 or less life, or drew from an empty library
/// (CR 704.5a, 704.5b).
pub open spec fn loses(p: PlayerState) -> bool {
    p.lost || p.life <= 0 || p.has_drawn_from_empty
}

/// No token is anywhere but the battlefield (CR 704.5d).
pub open spec fn tokens_settled(st: GameState) -> bool {
    forall|i: int| 0 <= i < st.objects@.len() ==> (#[trigger] st.objects@[i]).is_token ==> st.objects@[i].zone == Zone::Battlefield
}

/// A game with at most one player left is over (CR 104.2a).
pub open spec fn end_settled(st: GameState) -> bool {
    count_alive(st.players@) <= 1 ==> st.result is Some
}

/// No permanent has both +1/+1 and -1/-1 counters (CR 704.5q).
pub open spec fn counters_settled(st: GameState) -> bool {
    forall|i: int| 0 <= i < st.objects@.len() ==> (#[trigger] st.objects@[i]).zone == Zone::Battlefield ==>
        spec_counter(st.objects@[i].counters@, CounterType::PlusOnePlusOne) == 0
        || spec_counter(st.objects@[i].counters@, CounterType::MinusOneMinusOne) == 0
}

impl GameState {
    /// CR 704.5a and 704.5b: a player at 0 or less life, or who drew from an
    /// empty library, loses.
    fn sba_players(&mut self) -> (took: bool)
        requires
            sba_ok(*old(self)),
        ensures
            sba_ok(*final(self)),
            sba_measure(*final(self)) <= sba_measure(*old(self)),
            took ==> sba_measure(*final(self)) < sba_measure(*old(self)),
            !took ==> *final(self) == *old(self) && players_settled(*old(self)),
            players_settled(*final(self)),
            took ==> !players_settled(*old(self)),
            forall|p: int| 0 <= p < old(self).players@.len() ==> (#[trigger] final(self).players@[p]).lost == loses(old(self).players@[p])
                && final(self).players@[p].life == old(self).players@[p].life
                && final(self).players@[p].has_drawn_from_empty == old(self).players@[p].has_drawn_from_empty && final(self).players@[p].id == old(self).players@[p].id && players_rest(old(self).players@[p], final(self).players@[p]),
            final(self).objects == old(self).objects && final(self).result == old(self).result,
            final(self).awaiting_action == old(self).awaiting_action,
            final(self).players@.len() == old(self).players@.len(),
            sba_frame(*old(self), *final(self)),
    {
        let ghost st = *self;
        let mut took = false;
        let mut i: usize = 0;
        while i < self.players.len()
            invariant
                i <= self.players@.len(),
                self.players@.len() == st.players@.len(),
                self.objects == st.objects && self.result == st.result && self.awaiting_action == st.awaiting_action,
                sba_ok(*self),
                sba_measure(*self) <= sba_measure(st),
                took ==> sba_measure(*self) < sba_measure(st),
                !took ==> *self == st,
                took ==> !players_settled(st),
                forall|p: int| 0 <= p < i ==> (#[trigger] self.players@[p]).lost || self.players@[p].life > 0,
                forall|p: int| 0 <= p < self.players@.len() ==> (#[trigger] self.players@[p]).life == st.players@[p].life
                    && self.players@[p].has_drawn_from_empty == st.players@[p].has_drawn_from_empty && self.players@[p].id == st.players@[p].id && players_rest(st.players@[p], self.players@[p])
                    && (st.players@[p].lost ==> self.players@[p].lost),
                forall|p: int| 0 <= p < self.players@.len() ==> (#[trigger] self.players@[p]).lost
                    == (st.players@[p].lost || (p < i && st.players@[p].life <= 0)),
            decreases self.players@.len() - i,
        {
            if !self.players[i].lost && self.players[i].life <= 0 {
                let ghost before = *self;
                let id = self.players[i].id;
                self.players[i].lost = true;
                self.events.push(GameEvent::PlayerLost { player: id, reason: LossReason::LifeReachedZero });
                proof {
                    lemma_alive_lose(before.players@, i as int, self.players@[i as int]);
                    assert(!(st.players@[i as int].lost || (st.players@[i as int].life > 0 && !st.players@[i as int].has_drawn_from_empty)));
                    assert(self.players@ == before.players@.update(i as int, self.players@[i as int]));
                }
                took = true;
            }
            i = i + 1;
        }
        let mut j: usize = 0;
        while j < self.players.len()
            invariant
                j <= self.players@.len(),
                self.players@.len() == st.players@.len(),
                self.objects == st.objects && self.result == st.result && self.awaiting_action == st.awaiting_action,
                sba_ok(*self),
                sba_measure(*self) <= sba_measure(st),
                took ==> sba_measure(*self) < sba_measure(st),
                !took ==> *self == st,
                took ==> !players_settled(st),
                forall|p: int| 0 <= p < self.players@.len() ==> (#[trigger] self.players@[p]).lost || self.players@[p].life > 0,
                forall|p: int| 0 <= p < j ==> (#[trigger] self.players@[p]).lost || !self.players@[p].has_drawn_from_empty,
                forall|p: int| 0 <= p < self.players@.len() ==> (#[trigger] self.players@[p]).life == st.players@[p].life
                    && self.players@[p].has_drawn_from_empty == st.players@[p].has_drawn_from_empty && self.players@[p].id == st.players@[p].id && players_rest(st.players@[p], self.players@[p])
                    && (st.players@[p].lost ==> self.players@[p].lost),
                forall|p: int| 0 <= p < self.players@.len() ==> (#[trigger] self.players@[p]).lost
                    == (st.players@[p].lost || st.players@[p].life <= 0 || (p < j && st.players@[p].has_drawn_from_empty)),
            decreases self.players@.len() - j,
        {
            if !self.players[j].lost && self.players[j].has_drawn_from_empty {
                let ghost before = *self;
                let id = self.players[j].id;
                self.players[j].lost = true;
                self.events.push(GameEvent::PlayerLost { player: id, reason: LossReason::DrewFromEmptyLibrary });
                proof {
                    lemma_alive_lose(before.players@, j as int, self.players@[j as int]);
                    assert(!(st.players@[j as int].lost || (st.players@[j as int].life > 0 && !st.players@[j as int].has_drawn_from_empty)));
                    assert(self.players@ == before.players@.update(j as int, self.players@[j as int]));
                }
                took = true;
            }
            j = j + 1;
        }
        took
    }

    /// CR 704.5d: a token anywhere but the battlefield ceases to exist.
    fn sba_tokens(&mut self) -> (took: bool)
        requires
            sba_ok(*old(self)),
        ensures
            sba_ok(*final(self)),
            sba_measure(*final(self)) <= sba_measure(*old(self)),
            took ==> sba_measure(*final(self)) < sba_measure(*old(self)),
            !took ==> *final(self) == *old(self) && tokens_settled(*old(self)),
            tokens_settled(*final(self)),
            took ==> !tokens_settled(*old(self)),
            final(self).result == old(self).result && final(self).awaiting_action == old(self).awaiting_action,
            forall|p: int| 0 <= p < old(self).players@.len() ==> (#[trigger] final(self).players@[p]).lost == old(self).players@[p].lost
                && final(self).players@[p].life == old(self).players@[p].life
                && final(self).players@[p].has_drawn_from_empty == old(self).players@[p].has_drawn_from_empty && final(self).players@[p].id == old(self).players@[p].id && players_rest(old(self).players@[p], final(self).players@[p]),
            final(self).players@.len() == old(self).players@.len(),
            sba_frame(*old(self), *final(self)),
            ceased_only(*old(self), *final(self)),
    {
        let ghost st = *self;
        let mut took = false;
        let mut i: usize = 0;
        proof { assert forall|id: ObjectId| #![trigger st.spec_obj(id)] ceased_obj(st.spec_obj(id), st.spec_obj(id)) by {} }
        while i < self.objects.len()
            invariant
                i <= self.objects@.len(),
                sba_ok(*self),
                sba_measure(*self) <= sba_measure(st),
                took ==> sba_measure(*self) < sba_measure(st),
                !took ==> *self == st,
                took ==> !tokens_settled(st),
                forall|k: int| 0 <= k < i ==> (#[trigger] self.objects@[k]).is_token ==> self.objects@[k].zone == Zone::Battlefield,
                sba_frame(st, *self),
                ceased_only(st, *self),
                self.result == st.result && self.awaiting_action == st.awaiting_action,
                self.players@.len() == st.players@.len(),
                forall|p: int| 0 <= p < st.players@.len() ==> (#[trigger] self.players@[p]).lost == st.players@[p].lost
                    && self.players@[p].life == st.players@[p].life
                    && self.players@[p].has_drawn_from_empty == st.players@[p].has_drawn_from_empty && self.players@[p].id == st.players@[p].id && players_rest(st.players@[p], self.players@[p]),
            decreases self.objects@.len() - i,
        {
            if self.objects[i].is_token && self.objects[i].zone != Zone::Battlefield {
                let id = self.objects[i].id;
                let ghost before = *self;
                proof {
                    crate::state::lemma_find_from(before.objects@, id, 0);
                }
                let ghost at = before.spec_index(id).unwrap();
                proof {
                    if !took {
                        assert(!(st.objects@[i as int].is_token ==> st.objects@[i as int].zone == Zone::Battlefield));
                    }
                }
                proof { crate::state::lemma_find_unique(before.objects@, before.next_object_id, id, i as int); }
                self.cease_to_exist(id);
                proof {
                    lemma_kept_remove(before, *self, at);
                    lemma_kept_trans(st, before, *self);
                    lemma_ceased_trans(st, before, *self);
                    lemma_weight_remove(before.objects@, at);
                    lemma_alive_same(before.players@, self.players@);
                    assert forall|k: int| 0 <= k < self.objects@.len() implies (#[trigger] self.objects@[k]).owner.0 < self.players@.len()
                        && self.objects@[k].controller.0 < 255 by {
                        let k0 = if k < at { k } else { k + 1 };
                        assert(self.objects@[k] == before.objects@[k0]);
                    }
                    assert forall|k: int| 0 <= k < i implies (#[trigger] self.objects@[k]).is_token ==> self.objects@[k].zone == Zone::Battlefield by {
                        let k0 = if k < at { k } else { k + 1 };
                        assert(self.objects@[k] == before.objects@[k0]);
                    }
                }
                took = true;
            } else {
                i = i + 1;
            }
        }
        took
    }

    /// CR 104.2a: with one player left, that player wins; with none, the
    /// game is a draw.
    fn sba_game_end(&mut self) -> (took: bool)
        requires
            sba_ok(*old(self)),
        ensures
            sba_ok(*final(self)),
            sba_measure(*final(self)) <= sba_measure(*old(self)),
            took ==> sba_measure(*final(self)) < sba_measure(*old(self)),
            !took ==> *final(self) == *old(self) && end_settled(*old(self)),
            end_settled(*final(self)),
            took <==> old(self).result is None && count_alive(old(self).players@) <= 1,
            took ==> (final(self).result matches Some(r) && outcome_of(old(self).players@, r)),
            final(self).objects == old(self).objects && final(self).players == old(self).players,
            final(self).awaiting_action == old(self).awaiting_action,
            old(self).result is Some ==> final(self).result == old(self).result,
            sba_frame(*old(self), *final(self)),
    {
        let alive = self.alive_player_count();
        if alive <= 1 && self.result.is_none() {
            let result = if alive == 1 {
                let mut w: usize = 0;
                while w < self.players.len() && self.players[w].lost
                    invariant
                        w <= self.players@.len(),
                        forall|p: int| 0 <= p < w ==> (#[trigger] self.players@[p]).lost,
                    decreases self.players@.len() - w,
                {
                    w = w + 1;
                }
                if w < self.players.len() {
                    proof {
                        assert forall|q: int| 0 <= q < self.players@.len() && q != w implies (#[trigger] self.players@[q]).lost by {
                            if !self.players@[q].lost {
                                lemma_alive_two(self.players@, w as int, q);
                            }
                        }
                    }
                    GameResult::Winner(self.players[w].id)
                } else {
                    proof { lemma_alive_zero(self.players@); }
                    GameResult::Draw
                }
            } else {
                proof {
                    assert forall|p: int| 0 <= p < self.players@.len() implies (#[trigger] self.players@[p]).lost by {
                        if !self.players@[p].lost {
                            lemma_alive_pos(self.players@, p);
                        }
                    }
                }
                GameResult::Draw
            };
            self.events.push(GameEvent::GameEnded { result });
            self.result = Some(result);
            return true;
        }
        false
    }
}

/// What ended the game: the one player still in wins, or, with none, a draw.
pub open spec fn outcome_of(ps: Seq<PlayerState>, r: GameResult) -> bool {
    match r {
        GameResult::Winner(id) => exists|w: int| 0 <= w < ps.len() && !(#[trigger] ps[w]).lost && ps[w].id == id
            && forall|q: int| 0 <= q < ps.len() && q != w ==> (#[trigger] ps[q]).lost,
        GameResult::Draw => forall|p: int| 0 <= p < ps.len() ==> (#[trigger] ps[p]).lost,
    }
}

/// A player still in counts.
proof fn lemma_alive_pos(a: Seq<PlayerState>, p: int)
    requires
        0 <= p < a.len(),
        !a[p].lost,
    ensures
        count_alive(a) >= 1,
    decreases a.len(),
{
    if p < a.len() - 1 {
        lemma_alive_pos(a.drop_last(), p);
    }
}

/// Two players still in count twice.
proof fn lemma_alive_two(a: Seq<PlayerState>, p: int, q: int)
    requires
        0 <= p < a.len(),
        0 <= q < a.len(),
        p != q,
        !a[p].lost,
        !a[q].lost,
    ensures
        count_alive(a) >= 2,
    decreases a.len(),
{
    let n = a.len() - 1;
    if p == n {
        lemma_alive_pos(a.drop_last(), q);
    } else if q == n {
        lemma_alive_pos(a.drop_last(), p);
    } else {
        lemma_alive_two(a.drop_last(), p, q);
    }
}

/// With everyone out, nobody counts.
proof fn lemma_alive_zero(a: Seq<PlayerState>)
    requires
        forall|p: int| 0 <= p < a.len() ==> (#[trigger] a[p]).lost,
    ensures
        count_alive(a) == 0,
    decreases a.len(),
{
    if a.len() > 0 {
        lemma_alive_zero(a.drop_last());
    }
}

/// The measure only sees objects, who is still in, and whether the game
/// is decided.
pub proof fn lemma_measure_same(a: GameState, b: GameState)
    requires
        a.objects == b.objects,
        a.result == b.result,
        a.players@.len() == b.players@.len(),
        forall|p: int| 0 <= p < a.players@.len() ==> (#[trigger] a.players@[p]).lost == b.players@[p].lost,
    ensures
        sba_measure(a) == sba_measure(b),
{
    lemma_alive_same(a.players@, b.players@);
}

fn clamp_i32(v: i128) -> (r: i32)
    ensures
        r == (if v > i32::MAX { i32::MAX as int } else if v < i32::MIN { i32::MIN as int } else { v as int }),
{
    if v > 0x7fff_ffffi128 {
        0x7fff_ffffi32
    } else if v < -0x8000_0000i128 {
        -0x8000_0000i32
    } else {
        v as i32
    }
}

fn set_regenerated(o: &mut GameObject)
    requires
        old(o).regeneration_shields > 0,
    ensures
        *final(o) == (GameObject {
            regeneration_shields: (old(o).regeneration_shields - 1) as u32,
            damage_marked: 0,
            dealt_deathtouch_damage: false,
            ..*old(o)
        }),
{
    o.regeneration_shields = o.regeneration_shields - 1;
    o.damage_marked = 0;
    o.dealt_deathtouch_damage = false;
}

impl GameState {
    /// Regenerate a creature instead of destroying it (CR 701.15a): use up
    /// a shield, remove all damage from it, tap it, take it out of combat.
    fn sba_regenerate(&mut self, i: usize, id: ObjectId)
        requires
            sba_ok(*old(self)),
            i < old(self).objects@.len(),
            old(self).objects@[i as int].id == id,
            old(self).objects@[i as int].zone == Zone::Battlefield,
            old(self).objects@[i as int].regeneration_shields > 0,
        ensures
            sba_ok(*final(self)),
            sba_measure(*final(self)) < sba_measure(*old(self)),
            final(self).result == old(self).result && final(self).awaiting_action == old(self).awaiting_action,
            final(self).players == old(self).players,
            final(self).objects@.len() == old(self).objects@.len(),
            forall|k: int| 0 <= k < old(self).objects@.len() ==> (#[trigger] final(self).objects@[k]).id == old(self).objects@[k].id
                && final(self).objects@[k].zone == old(self).objects@[k].zone
                && final(self).objects@[k].owner == old(self).objects@[k].owner
                && final(self).objects@[k].is_token == old(self).objects@[k].is_token,
            forall|k: int| 0 <= k < old(self).objects@.len() && k != i ==> #[trigger] final(self).objects@[k] == old(self).objects@[k],
            final(self).objects@[i as int] == (GameObject {
                tapped: true,
                regeneration_shields: (old(self).objects@[i as int].regeneration_shields - 1) as u32,
                damage_marked: 0,
                dealt_deathtouch_damage: false,
                ..old(self).objects@[i as int]
            }),
    {
        let ghost st = *self;
        set_regenerated(&mut self.objects[i]);
        let ghost s1 = *self;
        proof {
            crate::state::lemma_find_unique(st.objects@, st.next_object_id, id, i as int);
            assert forall|k: int| 0 <= k < st.objects@.len() implies #[trigger] st.objects@[k].id == s1.objects@[k].id by {}
            crate::state::lemma_find_same_ids(st.objects@, s1.objects@, id, 0);
            lemma_weight_update(st.objects@, i as int, s1.objects@[i as int]);
        }
        self.tap(id);
        self.remove_from_combat(id);
        proof {
            if s1.objects@[i as int].tapped {
                assert(self.objects == s1.objects);
            } else {
                lemma_weight_update(s1.objects@, i as int, self.objects@[i as int]);
            }
            assert forall|k: int| 0 <= k < self.objects@.len() implies (#[trigger] self.objects@[k]).owner.0 < self.players@.len()
                && self.objects@[k].controller.0 < 255 && crate::laws::kinds_distinct(self.objects@[k].counters@) by {
                assert(self.objects@[k].owner == st.objects@[k].owner);
                assert(self.objects@[k].controller == st.objects@[k].controller);
                if k != i as int { assert(self.objects@[k] == st.objects@[k]); }
            }
            assert forall|a: int, b: int| 0 <= a < b < self.objects@.len() implies
                self.objects@[a].id.0 < self.objects@[b].id.0 by {
                assert(self.objects@[a].id == st.objects@[a].id);
                assert(self.objects@[b].id == st.objects@[b].id);
            }
            assert forall|a: int| 0 <= a < self.objects@.len() implies self.objects@[a].id.0 < self.next_object_id by {
                assert(self.objects@[a].id == st.objects@[a].id);
            }
        }
    }

    /// A creature dies (CR 704.5f-h): announced with what it last was, then
    /// put into its owner's graveyard.
    fn sba_dies(&mut self, id: ObjectId, registry: &CardRegistry)
        requires
            sba_ok(*old(self)),
        ensures
            sba_ok(*final(self)),
            sba_measure(*final(self)) <= sba_measure(*old(self)),
            old(self).in_zone(id, Zone::Battlefield) ==> sba_measure(*final(self)) < sba_measure(*old(self)),
            final(self).result == old(self).result,
            final(self).awaiting_action == old(self).awaiting_action,
            final(self).players@.len() == old(self).players@.len(),
            forall|p: int| 0 <= p < old(self).players@.len() ==> (#[trigger] final(self).players@[p]).lost == old(self).players@[p].lost
                && final(self).players@[p].life == old(self).players@[p].life
                && final(self).players@[p].has_drawn_from_empty == old(self).players@[p].has_drawn_from_empty && final(self).players@[p].id == old(self).players@[p].id && players_rest(old(self).players@[p], final(self).players@[p]),
            final(self).objects@.len() == old(self).objects@.len(),
            forall|k: int| 0 <= k < old(self).objects@.len() ==> (#[trigger] final(self).objects@[k]).id == old(self).objects@[k].id,
            forall|k: int| 0 <= k < old(self).objects@.len() && old(self).objects@[k].id != id ==> #[trigger] final(self).objects@[k] == old(self).objects@[k],
            forall|k: int| 0 <= k < old(self).objects@.len() && old(self).objects@[k].id == id ==> (#[trigger] final(self).objects@[k]).zone == Zone::Graveyard
                && final(self).objects@[k].owner == old(self).objects@[k].owner && final(self).objects@[k].is_token == old(self).objects@[k].is_token,
    {
        let ghost st = *self;
        let (card_id, controller, damaged_by, is_token) = match self.get_object(id) {
            Some(o) => (o.card_id, o.controller, o.damaged_by.clone(), o.is_token),
            None => (CardId(0), PlayerId(0), Vec::new(), false),
        };
        let last_known_toughness = match self.effective_pt_wide(id, registry, false) {
            Some(t) => clamp_i32(t),
            None => 0,
        };
        self.events.push(GameEvent::CreatureDied { object: id, card_id, controller, damaged_by, last_known_toughness, is_token });
        let ghost s1 = *self;
        proof { lemma_measure_same(st, s1); }
        self.sba_to_graveyard(id, registry);
        let ghost s2 = *self;
        self.creature_died_this_turn = true;
        proof {
            lemma_measure_same(s2, *self);
        }
    }
}

/// Damage counted against toughness: what fits in an `i32`, the rest cut off.
pub open spec fn counted_damage(d: u32) -> int {
    if d > i32::MAX { i32::MAX as int } else { d as int }
}

/// A creature on the battlefield with toughness 0 or less (CR 704.5f).
pub open spec fn dies_zero(st: GameState, reg: CardRegistry, k: int) -> bool {
    let o = st.objects@[k];
    &&& o.zone == Zone::Battlefield
    &&& st.spec_card_types(o.id, &reg).contains(CardType::Creature)
    &&& match sp_pt(st, o.id, reg, false) {
        Some(t) => t <= 0,
        None => false,
    }
}

/// A creature on the battlefield with lethal damage, or any damage from a
/// source with deathtouch (CR 704.5g, 704.5h).
pub open spec fn dies_lethal(st: GameState, reg: CardRegistry, k: int) -> bool {
    let o = st.objects@[k];
    &&& o.zone == Zone::Battlefield
    &&& st.spec_card_types(o.id, &reg).contains(CardType::Creature)
    &&& match sp_pt(st, o.id, reg, false) {
        Some(t) => t > 0 && (counted_damage(o.damage_marked) >= t || (o.dealt_deathtouch_damage && o.damage_marked > 0)),
        None => false,
    }
}

/// No creature is due to die: none has toughness 0 or less, and each with
/// lethal damage is indestructible.
pub open spec fn creatures_settled(st: GameState, reg: CardRegistry) -> bool {
    forall|k: int| 0 <= k < st.objects@.len() ==> !#[trigger] dies_zero(st, reg, k)
        && (dies_lethal(st, reg, k) ==> sp_has_keyword(st, st.objects@[k].id, Keyword::Indestructible, reg, EFFECT_DEPTH as nat))
}

/// A creature with lethal damage that is not indestructible is due to die.
proof fn lemma_lethal_unsettled(st: GameState, reg: CardRegistry, k: int)
    requires
        0 <= k < st.objects@.len(),
        dies_lethal(st, reg, k),
        !sp_has_keyword(st, st.objects@[k].id, Keyword::Indestructible, reg, EFFECT_DEPTH as nat),
    ensures
        !creatures_settled(st, reg),
{
    if creatures_settled(st, reg) {
        assert(!dies_zero(st, reg, k));
        assert(dies_lethal(st, reg, k) ==> sp_has_keyword(st, st.objects@[k].id, Keyword::Indestructible, reg, EFFECT_DEPTH as nat));
        assert(false);
    }
}

/// Two positions hold two different ids.
proof fn lemma_ids_differ(objs: Seq<GameObject>, next: u64, a: int, b: int)
    requires
        crate::state::objects_wf(objs, next),
        0 <= a < objs.len(),
        0 <= b < objs.len(),
        a != b,
    ensures
        objs[a].id != objs[b].id,
{
    if a < b {
        assert(objs[a].id.0 < objs[b].id.0);
    } else {
        assert(objs[b].id.0 < objs[a].id.0);
    }
}

/// What a state-based action may do to one object: its id, owner and
/// token-ness stay; off the battlefield it stays as it was; a permanent
/// stays on the battlefield or is put into its owner's graveyard.
pub open spec fn obj_step(o: GameObject, n: GameObject) -> bool {
    &&& n.id == o.id && n.owner == o.owner && n.is_token == o.is_token
    &&& o.zone != Zone::Battlefield ==> n == o
    &&& o.zone == Zone::Battlefield ==> (n.zone == Zone::Battlefield || n.zone == Zone::Graveyard)
}

/// What became of one object: a step as above, or, for a token, ceasing
/// to exist (CR 704.5d); nothing comes into being.
pub open spec fn frame_obj(o: Option<GameObject>, n: Option<GameObject>) -> bool {
    match (o, n) {
        (Some(o), Some(n)) => obj_step(o, n),
        (Some(o), None) => o.is_token,
        (None, None) => true,
        (None, Some(_)) => false,
    }
}

/// What state-based actions do to the objects: every object off the
/// battlefield stays as it was, every permanent stays on the battlefield
/// or is put into its owner's graveyard, a token may cease to exist, and
/// no object is added.
pub open spec fn sba_frame(a: GameState, b: GameState) -> bool {
    forall|id: ObjectId| #![trigger a.spec_obj(id)] #![trigger b.spec_obj(id)] frame_obj(a.spec_obj(id), b.spec_obj(id))
}

/// Objects stepped position by position are stepped by id.
proof fn lemma_kept_by_index(a: GameState, b: GameState)
    requires
        b.objects@.len() == a.objects@.len(),
        forall|k: int| 0 <= k < a.objects@.len() ==> obj_step(#[trigger] a.objects@[k], b.objects@[k]),
    ensures
        sba_frame(a, b),
{
    assert forall|k: int| 0 <= k < a.objects@.len() implies #[trigger] a.objects@[k].id == b.objects@[k].id by {
        assert(obj_step(a.objects@[k], b.objects@[k]));
    }
    assert forall|id: ObjectId| #![trigger a.spec_obj(id)] #![trigger b.spec_obj(id)] frame_obj(a.spec_obj(id), b.spec_obj(id)) by {
        crate::state::lemma_find_same_ids(a.objects@, b.objects@, id, 0);
        crate::state::lemma_find_from(a.objects@, id, 0);
        match a.spec_index(id) {
            Some(i) => { assert(obj_step(a.objects@[i], b.objects@[i])); },
            None => {},
        }
    }
}

/// Why the state-based actions may put the permanent at `k` into its
/// owner's graveyard, as checked on `st`: toughness 0 or less (CR 704.5f);
/// lethal or deathtouch damage and no regeneration shield (CR 704.5g,
/// 704.5h); an Aura whose object is gone, unless it is on a player
/// (CR 704.5m); a planeswalker with no loyalty (CR 704.5i).
pub open spec fn sba_due(st: GameState, reg: CardRegistry, k: int) -> bool {
    ||| dies_zero(st, reg, k)
    ||| dies_lethal(st, reg, k) && st.objects@[k].regeneration_shields == 0
    ||| attachment_gone(st, k) && !st.spec_has_subtype(st.objects@[k].id, "Equipment"@, &reg)
        && st.objects@[k].attached_to_player is None
    ||| pw_dies(st, reg, k)
}

/// The permanent at `k` regenerated (CR 701.15a), as checked on `st`: it
/// had lethal damage and a shield, and is now tapped, with one shield less
/// and no damage.
pub open spec fn sba_regenerated(st: GameState, reg: CardRegistry, k: int, n: GameObject) -> bool {
    let o = st.objects@[k];
    &&& dies_lethal(st, reg, k) && o.regeneration_shields > 0
    &&& n == (GameObject {
            tapped: true,
            regeneration_shields: (o.regeneration_shields - 1) as u32,
            damage_marked: 0,
            dealt_deathtouch_damage: false,
            ..o
        })
}

/// The permanent's +1/+1 and -1/-1 counters annihilated in pairs until
/// one kind was gone (CR 704.5q); its other counters and fields stayed.
pub open spec fn annihilated(o: GameObject, n: GameObject) -> bool {
    let p = spec_counter(o.counters@, CounterType::PlusOnePlusOne);
    let q = spec_counter(o.counters@, CounterType::MinusOneMinusOne);
    let m = if p < q { p } else { q };
    &&& o.zone == Zone::Battlefield && p > 0 && q > 0
    &&& n == (GameObject { counters: n.counters, ..o })
    &&& spec_counter(n.counters@, CounterType::PlusOnePlusOne) == p - m
    &&& spec_counter(n.counters@, CounterType::MinusOneMinusOne) == q - m
    &&& forall|ct: CounterType| ct != CounterType::PlusOnePlusOne && ct != CounterType::MinusOneMinusOne
        ==> #[trigger] spec_counter(n.counters@, ct) == spec_counter(o.counters@, ct)
}

/// What one check of the state-based actions, made on `st`, may make of
/// the object at `k`: leave it as it was; put a permanent that is due into
/// its owner's graveyard; regenerate it; take an Equipment off an object
/// that is gone (CR 704.5n); annihilate its counters.
pub open spec fn obj_change(st: GameState, reg: CardRegistry, k: int, n: GameObject) -> bool {
    let o = st.objects@[k];
    ||| n == o
    ||| o.zone == Zone::Battlefield && n.zone == Zone::Graveyard && n.id == o.id && n.owner == o.owner
        && n.is_token == o.is_token && sba_due(st, reg, k)
    ||| sba_regenerated(st, reg, k, n)
    ||| attachment_gone(st, k) && st.spec_has_subtype(o.id, "Equipment"@, &reg) && n == (GameObject { attached_to: None, ..o })
    ||| annihilated(o, n)
}

/// What becomes of the object with this id in one check made on `st`:
/// an object never appears, a token off the battlefield may cease to
/// exist (CR 704.5d), and any other object changes only as `obj_change`
/// allows.
pub open spec fn step_obj(st: GameState, reg: CardRegistry, id: ObjectId, n: Option<GameObject>) -> bool {
    match st.spec_index(id) {
        None => n is None,
        Some(k) => match n {
            None => st.objects@[k].is_token && st.objects@[k].zone != Zone::Battlefield,
            Some(n) => obj_change(st, reg, k, n),
        },
    }
}

/// One check of the state-based actions, made on `a`, leading to `b`.
#[verifier::opaque]
pub open spec fn sba_step(a: GameState, b: GameState, reg: CardRegistry) -> bool {
    forall|id: ObjectId| #![trigger a.spec_obj(id)] #![trigger b.spec_obj(id)] step_obj(a, reg, id, b.spec_obj(id))
}

/// The states the checks were made on, from `a` to `b`, each leading to
/// the next. The relation follows the objects; the effect lists a zone
/// change trims are not followed from one check to the next.
#[verifier::opaque]
pub open spec fn sba_run(tr: Seq<GameState>, a: GameState, b: GameState, reg: CardRegistry) -> bool {
    &&& tr.len() >= 1 && tr[0] == a && tr.last() == b
    &&& forall|i: int| 0 <= i < tr.len() - 1 ==> #[trigger] sba_step(tr[i], tr[i + 1], reg)
}

/// A check that left every object as it was.
proof fn lemma_step_same(a: GameState, b: GameState, reg: CardRegistry)
    requires
        b.objects == a.objects,
    ensures
        sba_step(a, b, reg),
{
    reveal(sba_step);
    reveal(sba_run);
    assert forall|id: ObjectId| #![trigger a.spec_obj(id)] #![trigger b.spec_obj(id)] step_obj(a, reg, id, b.spec_obj(id)) by {
        crate::state::lemma_find_from(a.objects@, id, 0);
    }
}

/// A check read off object by object.
proof fn lemma_step_by_index(a: GameState, b: GameState, reg: CardRegistry)
    requires
        b.objects@.len() == a.objects@.len(),
        forall|k: int| 0 <= k < a.objects@.len() ==> (#[trigger] b.objects@[k]).id == a.objects@[k].id,
        forall|k: int| 0 <= k < a.objects@.len() ==> #[trigger] obj_change(a, reg, k, b.objects@[k]),
    ensures
        sba_step(a, b, reg),
{
    reveal(sba_step);
    reveal(sba_run);
    assert forall|id: ObjectId| #![trigger a.spec_obj(id)] #![trigger b.spec_obj(id)] step_obj(a, reg, id, b.spec_obj(id)) by {
        crate::state::lemma_find_same_ids(a.objects@, b.objects@, id, 0);
        crate::state::lemma_find_from(a.objects@, id, 0);
        match a.spec_index(id) {
            Some(i) => { assert(obj_change(a, reg, i, b.objects@[i])); },
            None => {},
        }
    }
}

/// A run of no checks.
proof fn lemma_run_start(a: GameState, reg: CardRegistry)
    ensures
        sba_run(seq![a], a, a, reg),
{
    reveal(sba_run);
}

/// A run extended by one more check.
proof fn lemma_run_push(tr: Seq<GameState>, a: GameState, b: GameState, c: GameState, reg: CardRegistry)
    requires
        sba_run(tr, a, b, reg),
        sba_step(b, c, reg),
    ensures
        sba_run(tr.push(c), a, c, reg),
{
    reveal(sba_step);
    reveal(sba_run);
    assert forall|i: int| 0 <= i < tr.push(c).len() - 1 implies #[trigger] sba_step(tr.push(c)[i], tr.push(c)[i + 1], reg) by {
        if i < tr.len() - 1 {
            assert(tr.push(c)[i] == tr[i] && tr.push(c)[i + 1] == tr[i + 1]);
        } else {
            assert(tr.push(c)[i] == b && tr.push(c)[i + 1] == c);
        }
    }
}

/// The state-based actions' effect on the objects chains.
proof fn lemma_kept_trans(a: GameState, b: GameState, c: GameState)
    requires
        sba_frame(a, b),
        sba_frame(b, c),
    ensures
        sba_frame(a, c),
{
    assert forall|id: ObjectId| #![trigger a.spec_obj(id)] #![trigger c.spec_obj(id)] frame_obj(a.spec_obj(id), c.spec_obj(id)) by {
        assert(frame_obj(a.spec_obj(id), b.spec_obj(id)));
        assert(frame_obj(b.spec_obj(id), c.spec_obj(id)));
    }
}

/// Taking a token off the battlefield out of the objects leaves every
/// other object as it was.
proof fn lemma_kept_remove(a: GameState, b: GameState, at: int)
    requires
        crate::state::objects_wf(a.objects@, a.next_object_id),
        0 <= at < a.objects@.len(),
        a.objects@[at].is_token,
        a.objects@[at].zone != Zone::Battlefield,
        b.objects@ == a.objects@.remove(at),
    ensures
        sba_frame(a, b),
        ceased_only(a, b),
{
    assert forall|id: ObjectId| #![trigger a.spec_obj(id)] #![trigger b.spec_obj(id)] frame_obj(a.spec_obj(id), b.spec_obj(id))
        && ceased_obj(a.spec_obj(id), b.spec_obj(id)) by {
        crate::state::lemma_find_from(a.objects@, id, 0);
        crate::state::lemma_find_from(b.objects@, id, 0);
        match b.spec_index(id) {
            Some(x) => {
                let x0 = if x < at { x } else { x + 1 };
                assert(b.objects@[x] == a.objects@[x0]);
                let j = a.spec_index(id).unwrap();
                if j == at {
                    lemma_ids_differ(a.objects@, a.next_object_id, x0, at);
                }
                let j2 = if j < at { j } else { j - 1 };
                assert(b.objects@[j2] == a.objects@[j]);
                if x < j2 {
                    assert(a.objects@[x0].id == id);
                    assert(x0 < j);
                }
            },
            None => {
                match a.spec_index(id) {
                    Some(j) => {
                        if j != at {
                            let j2 = if j < at { j } else { j - 1 };
                            assert(b.objects@[j2] == a.objects@[j]);
                        }
                    },
                    None => {},
                }
            },
        }
    }
}

/// The object is unchanged, or was a token off the battlefield and has
/// ceased to exist (CR 704.5d).
pub open spec fn ceased_obj(o: Option<GameObject>, n: Option<GameObject>) -> bool {
    match o {
        Some(o) => n == Some(o) || (n is None && o.is_token && o.zone != Zone::Battlefield),
        None => n is None,
    }
}

/// Only tokens off the battlefield have gone, and nothing else changed
/// among the objects.
pub open spec fn ceased_only(a: GameState, b: GameState) -> bool {
    forall|id: ObjectId| #![trigger a.spec_obj(id)] #![trigger b.spec_obj(id)] ceased_obj(a.spec_obj(id), b.spec_obj(id))
}

proof fn lemma_ceased_trans(a: GameState, b: GameState, c: GameState)
    requires
        ceased_only(a, b),
        ceased_only(b, c),
    ensures
        ceased_only(a, c),
{
    assert forall|id: ObjectId| #![trigger a.spec_obj(id)] #![trigger c.spec_obj(id)] ceased_obj(a.spec_obj(id), c.spec_obj(id)) by {
        assert(ceased_obj(a.spec_obj(id), b.spec_obj(id)));
        assert(ceased_obj(b.spec_obj(id), c.spec_obj(id)));
    }
}

proof fn lemma_ceased_step(a: GameState, b: GameState, reg: CardRegistry)
    requires
        ceased_only(a, b),
    ensures
        sba_step(a, b, reg),
{
    reveal(sba_step);
    reveal(sba_run);
    assert forall|id: ObjectId| #![trigger a.spec_obj(id)] #![trigger b.spec_obj(id)] step_obj(a, reg, id, b.spec_obj(id)) by {
        assert(ceased_obj(a.spec_obj(id), b.spec_obj(id)));
    }
}

/// A strictly increasing list of positions.
pub open spec fn increasing(v: Seq<usize>) -> bool {
    forall|a: int, b: int| 0 <= a < b < v.len() ==> v[a] < v[b]
}

impl GameState {
    /// The positions of the creatures due to die, in two lists: toughness 0
    /// or less, and lethal or deathtouch damage.
    fn sba_classify(&self, registry: &CardRegistry) -> (r: (Vec<usize>, Vec<usize>))
        requires
            sba_ok(*self),
        ensures
            increasing(r.0@) && increasing(r.1@),
            forall|m: int| 0 <= m < r.0@.len() ==> (#[trigger] r.0@[m]) < self.objects@.len() && dies_zero(*self, *registry, r.0@[m] as int),
            forall|m: int| 0 <= m < r.1@.len() ==> (#[trigger] r.1@[m]) < self.objects@.len() && dies_lethal(*self, *registry, r.1@[m] as int),
            forall|k: int| 0 <= k < self.objects@.len() && #[trigger] dies_zero(*self, *registry, k) ==> r.0@.contains(k as usize),
            forall|k: int| 0 <= k < self.objects@.len() && #[trigger] dies_lethal(*self, *registry, k) ==> r.1@.contains(k as usize),
    {
        let mut zero: Vec<usize> = Vec::new();
        let mut lethal: Vec<usize> = Vec::new();
        let mut i: usize = 0;
        while i < self.objects.len()
            invariant
                sba_ok(*self),
                i <= self.objects@.len(),
                increasing(zero@) && increasing(lethal@),
                forall|m: int| 0 <= m < zero@.len() ==> (#[trigger] zero@[m]) < i && dies_zero(*self, *registry, zero@[m] as int),
                forall|m: int| 0 <= m < lethal@.len() ==> (#[trigger] lethal@[m]) < i && dies_lethal(*self, *registry, lethal@[m] as int),
                forall|k: int| 0 <= k < i && #[trigger] dies_zero(*self, *registry, k) ==> zero@.contains(k as usize),
                forall|k: int| 0 <= k < i && #[trigger] dies_lethal(*self, *registry, k) ==> lethal@.contains(k as usize),
            decreases self.objects@.len() - i,
        {
            let id = self.objects[i].id;
            let ghost z0 = zero@;
            let ghost l0 = lethal@;
            proof {
                crate::state::lemma_find_unique(self.objects@, self.next_object_id, id, i as int);
            }
            if self.objects[i].zone == Zone::Battlefield && self.is_creature(id, registry) {
                match self.effective_pt_wide(id, registry, false) {
                    Some(t) => {
                        let damage = self.objects[i].damage_marked;
                        let counted: i128 = if damage > 0x7fff_ffffu32 { 0x7fff_ffffi128 } else { damage as i128 };
                        if t <= 0 {
                            zero.push(i);
                            proof { assert(zero@.last() == i); }
                        } else if counted >= t || (self.objects[i].dealt_deathtouch_damage && damage > 0) {
                            lethal.push(i);
                            proof { assert(lethal@.last() == i); }
                        }
                    },
                    None => {},
                }
            }
            proof {
                assert forall|k: int| 0 <= k < i + 1 && #[trigger] dies_zero(*self, *registry, k) implies zero@.contains(k as usize) by {
                    if k == i {
                        assert(zero@[zero@.len() - 1] == i);
                    } else {
                        assert(z0.contains(k as usize));
                        let w = choose|w: int| 0 <= w < z0.len() && z0[w] == k as usize;
                        assert(zero@[w] == z0[w]);
                    }
                }
                assert forall|k: int| 0 <= k < i + 1 && #[trigger] dies_lethal(*self, *registry, k) implies lethal@.contains(k as usize) by {
                    if k == i {
                        assert(lethal@[lethal@.len() - 1] == i);
                    } else {
                        assert(l0.contains(k as usize));
                        let w = choose|w: int| 0 <= w < l0.len() && l0[w] == k as usize;
                        assert(lethal@[w] == l0[w]);
                    }
                }
            }
            i = i + 1;
        }
        (zero, lethal)
    }
}

/// What a step keeps of the players: who has lost, life totals, and who
/// drew from an empty library.
pub open spec fn players_kept(a: GameState, b: GameState) -> bool {
    &&& b.players@.len() == a.players@.len()
    &&& forall|p: int| 0 <= p < a.players@.len() ==> (#[trigger] b.players@[p]).lost == a.players@[p].lost
        && b.players@[p].life == a.players@[p].life
        && b.players@[p].has_drawn_from_empty == a.players@[p].has_drawn_from_empty && b.players@[p].id == a.players@[p].id && players_rest(a.players@[p], b.players@[p])
}

impl GameState {
    /// CR 704.5f-h: creatures with toughness 0 or less die; creatures with
    /// lethal or deathtouch damage are destroyed, unless indestructible (as
    /// they were before any of them died) or regenerated.
    fn sba_creatures(&mut self, registry: &CardRegistry) -> (took: bool)
        requires
            sba_ok(*old(self)),
        ensures
            sba_ok(*final(self)),
            sba_measure(*final(self)) <= sba_measure(*old(self)),
            took ==> sba_measure(*final(self)) < sba_measure(*old(self)),
            !took ==> *final(self) == *old(self) && creatures_settled(*old(self), *registry),
            took ==> !creatures_settled(*old(self), *registry),
            final(self).result == old(self).result && final(self).awaiting_action == old(self).awaiting_action,
            players_kept(*old(self), *final(self)),
            sba_frame(*old(self), *final(self)),
            sba_step(*old(self), *final(self), *registry),
    {
        let ghost st = *self;
        let (zero, lethal) = self.sba_classify(registry);
        let mut took = false;
        let mut j: usize = 0;
        while j < zero.len()
            invariant
                sba_ok(*self),
                j <= zero@.len(),
                increasing(zero@) && increasing(lethal@),
                forall|k: int| 0 <= k < st.objects@.len() && #[trigger] dies_zero(st, *registry, k) ==> zero@.contains(k as usize),
                forall|k: int| 0 <= k < st.objects@.len() && #[trigger] dies_lethal(st, *registry, k) ==> lethal@.contains(k as usize),
                forall|m: int| 0 <= m < zero@.len() ==> (#[trigger] zero@[m]) < st.objects@.len() && dies_zero(st, *registry, zero@[m] as int),
                forall|m: int| 0 <= m < lethal@.len() ==> (#[trigger] lethal@[m]) < st.objects@.len() && dies_lethal(st, *registry, lethal@[m] as int),
                self.objects@.len() == st.objects@.len(),
                forall|k: int| 0 <= k < st.objects@.len() ==> (#[trigger] self.objects@[k]).id == st.objects@[k].id,
                forall|k: int| 0 <= k < st.objects@.len() ==> obj_step(#[trigger] st.objects@[k], self.objects@[k]) && obj_change(st, *registry, k, self.objects@[k]),
                forall|m: int| j <= m < zero@.len() ==> self.objects@[#[trigger] zero@[m] as int] == st.objects@[zero@[m] as int],
                forall|m: int| 0 <= m < lethal@.len() ==> self.objects@[#[trigger] lethal@[m] as int] == st.objects@[lethal@[m] as int],
                sba_measure(*self) <= sba_measure(st),
                took ==> sba_measure(*self) < sba_measure(st),
                !took ==> *self == st,
                took ==> !creatures_settled(st, *registry),
                took == (j > 0),
                self.result == st.result && self.awaiting_action == st.awaiting_action,
                players_kept(st, *self),
            decreases zero@.len() - j,
        {
            let idx = zero[j];
            let id = self.objects[idx].id;
            let ghost before = *self;
            proof {
                crate::state::lemma_find_unique(self.objects@, self.next_object_id, id, idx as int);
                assert forall|m: int| 0 <= m < lethal@.len() implies lethal@[m] != idx by {
                    assert(dies_lethal(st, *registry, lethal@[m] as int));
                }
            }
            proof {
                assert(dies_zero(st, *registry, idx as int));
            }
            self.sba_dies(id, registry);
            proof {
                assert forall|m: int| j + 1 <= m < zero@.len() implies self.objects@[#[trigger] zero@[m] as int] == st.objects@[zero@[m] as int] by {
                    lemma_ids_differ(before.objects@, before.next_object_id, zero@[m] as int, idx as int);
                }
                assert forall|k: int| 0 <= k < st.objects@.len() implies obj_step(#[trigger] st.objects@[k], self.objects@[k]) && obj_change(st, *registry, k, self.objects@[k]) by {
                    if k != idx as int {
                        lemma_ids_differ(before.objects@, before.next_object_id, k, idx as int);
                    }
                }
                assert forall|m: int| 0 <= m < lethal@.len() implies self.objects@[#[trigger] lethal@[m] as int] == st.objects@[lethal@[m] as int] by {
                    assert(dies_lethal(st, *registry, lethal@[m] as int));
                    lemma_ids_differ(before.objects@, before.next_object_id, lethal@[m] as int, idx as int);
                }
            }
            took = true;
            j = j + 1;
        }
        let ghost mid = *self;
        let mut indestructible: Vec<bool> = Vec::new();
        let mut m: usize = 0;
        while m < lethal.len()
            invariant
                *self == mid,
                forall|k: int| 0 <= k < st.objects@.len() ==> #[trigger] obj_change(st, *registry, k, mid.objects@[k]),
                took ==> !creatures_settled(st, *registry),
                !took ==> mid == st,
                sba_ok(*self),
                m <= lethal@.len(),
                forall|k: int| 0 <= k < st.objects@.len() && #[trigger] dies_zero(st, *registry, k) ==> zero@.contains(k as usize),
                forall|k: int| 0 <= k < st.objects@.len() && #[trigger] dies_lethal(st, *registry, k) ==> lethal@.contains(k as usize),
                indestructible@.len() == m,
                self.objects@.len() == st.objects@.len(),
                forall|q: int| 0 <= q < lethal@.len() ==> (#[trigger] lethal@[q]) < st.objects@.len(),
                forall|q: int| 0 <= q < m ==> #[trigger] indestructible@[q] == sp_has_keyword(mid, mid.objects@[lethal@[q] as int].id, Keyword::Indestructible, *registry, EFFECT_DEPTH as nat),
            decreases lethal@.len() - m,
        {
            let id = self.objects[lethal[m]].id;
            let b = self.has_keyword(id, Keyword::Indestructible, registry);
            indestructible.push(b);
            m = m + 1;
        }
        let mut j: usize = 0;
        while j < lethal.len()
            invariant
                sba_ok(*self),
                j <= lethal@.len(),
                indestructible@.len() == lethal@.len(),
                forall|k: int| 0 <= k < st.objects@.len() && #[trigger] dies_zero(st, *registry, k) ==> zero@.contains(k as usize),
                forall|k: int| 0 <= k < st.objects@.len() && #[trigger] dies_lethal(st, *registry, k) ==> lethal@.contains(k as usize),
                increasing(lethal@),
                forall|q: int| 0 <= q < lethal@.len() ==> (#[trigger] lethal@[q]) < st.objects@.len() && dies_lethal(st, *registry, lethal@[q] as int),
                forall|q: int| 0 <= q < lethal@.len() ==> #[trigger] indestructible@[q] == sp_has_keyword(mid, mid.objects@[lethal@[q] as int].id, Keyword::Indestructible, *registry, EFFECT_DEPTH as nat),
                self.objects@.len() == st.objects@.len(),
                forall|k: int| 0 <= k < st.objects@.len() ==> (#[trigger] self.objects@[k]).id == st.objects@[k].id,
                forall|q: int| j <= q < lethal@.len() ==> self.objects@[#[trigger] lethal@[q] as int] == st.objects@[lethal@[q] as int],
                forall|k: int| 0 <= k < st.objects@.len() ==> obj_step(#[trigger] st.objects@[k], self.objects@[k]) && obj_change(st, *registry, k, self.objects@[k]),
                sba_measure(*self) <= sba_measure(st),
                took ==> sba_measure(*self) < sba_measure(st),
                !took ==> *self == st && mid == st && zero@.len() == 0,
                took ==> !creatures_settled(st, *registry),
                !took ==> forall|q: int| 0 <= q < j ==> #[trigger] indestructible@[q],
                self.result == st.result && self.awaiting_action == st.awaiting_action,
                players_kept(st, *self),
            decreases lethal@.len() - j,
        {
            let idx = lethal[j];
            let id = self.objects[idx].id;
            let ghost before = *self;
            proof {
                crate::state::lemma_find_unique(self.objects@, self.next_object_id, id, idx as int);
                assert(dies_lethal(st, *registry, idx as int));
            }
            if !indestructible[j] {
                proof {
                    assert(!creatures_settled(st, *registry)) by {
                        if !took {
                            assert(!sp_has_keyword(st, st.objects@[idx as int].id, Keyword::Indestructible, *registry, EFFECT_DEPTH as nat));
                            lemma_lethal_unsettled(st, *registry, idx as int);
                        }
                    }
                }
                if self.objects[idx].regeneration_shields > 0 {
                    self.sba_regenerate(idx, id);
                } else {
                    self.sba_dies(id, registry);
                }
                took = true;
                proof {
                    assert forall|q: int| j + 1 <= q < lethal@.len() implies self.objects@[#[trigger] lethal@[q] as int] == st.objects@[lethal@[q] as int] by {
                        lemma_ids_differ(before.objects@, before.next_object_id, lethal@[q] as int, idx as int);
                    }
                    assert forall|k: int| 0 <= k < st.objects@.len() implies obj_step(#[trigger] st.objects@[k], self.objects@[k]) && obj_change(st, *registry, k, self.objects@[k]) by {
                        if k != idx as int {
                            lemma_ids_differ(before.objects@, before.next_object_id, k, idx as int);
                        }
                    }
                }
            }
            j = j + 1;
        }
        proof {
            if !took {
                assert(*self == st && mid == st && zero@.len() == 0);
                assert(st.objects.len() == st.objects@.len());
                assert forall|k: int| 0 <= k < st.objects@.len() implies !#[trigger] dies_zero(st, *registry, k) by {
                    if dies_zero(st, *registry, k) {
                        assert(zero@.contains(k as usize));
                    }
                }
                assert forall|k: int| 0 <= k < st.objects@.len() && #[trigger] dies_lethal(st, *registry, k) implies
                    sp_has_keyword(st, st.objects@[k].id, Keyword::Indestructible, *registry, EFFECT_DEPTH as nat) by {
                    assert(lethal@.contains(k as usize));
                    let w = choose|w: int| 0 <= w < lethal@.len() && lethal@[w] == k as usize;
                    assert(indestructible@[w]);
                    assert(lethal@[w] as int == k);
                }
            }
            lemma_kept_by_index(st, *self);
            lemma_step_by_index(st, *self, *registry);
        }
        took
    }
}

/// An attachment on the battlefield whose object has left it, or never was.
pub open spec fn attachment_gone(st: GameState, k: int) -> bool {
    let o = st.objects@[k];
    &&& o.zone == Zone::Battlefield
    &&& match o.attached_to {
        Some(t) => !st.in_zone(t, Zone::Battlefield),
        None => false,
    }
}

/// Every attachment left without its object is an Aura on a player, which
/// stays (CR 704.5m, 704.5n).
pub open spec fn attachments_settled(st: GameState, reg: CardRegistry) -> bool {
    forall|k: int| 0 <= k < st.objects@.len() && #[trigger] attachment_gone(st, k) ==>
        !st.spec_has_subtype(st.objects@[k].id, "Equipment"@, &reg) && st.objects@[k].attached_to_player is Some
}

fn detach(o: &mut GameObject)
    ensures
        *final(o) == (GameObject { attached_to: None, ..*old(o) }),
{
    o.attached_to = None;
}

impl GameState {
    /// The positions of the attachments left without their object: the
    /// Equipment, and the Auras not on a player.
    fn sba_unattached(&self, registry: &CardRegistry) -> (r: (Vec<usize>, Vec<usize>))
        requires
            sba_ok(*self),
        ensures
            increasing(r.0@) && increasing(r.1@),
            forall|m: int| 0 <= m < r.0@.len() ==> (#[trigger] r.0@[m]) < self.objects@.len() && attachment_gone(*self, r.0@[m] as int)
                && self.spec_has_subtype(self.objects@[r.0@[m] as int].id, "Equipment"@, registry),
            forall|m: int| 0 <= m < r.1@.len() ==> (#[trigger] r.1@[m]) < self.objects@.len() && attachment_gone(*self, r.1@[m] as int)
                && !self.spec_has_subtype(self.objects@[r.1@[m] as int].id, "Equipment"@, registry)
                && self.objects@[r.1@[m] as int].attached_to_player is None,
            forall|k: int| 0 <= k < self.objects@.len() && #[trigger] attachment_gone(*self, k) ==>
                (self.spec_has_subtype(self.objects@[k].id, "Equipment"@, registry) ==> r.0@.contains(k as usize))
                && (!self.spec_has_subtype(self.objects@[k].id, "Equipment"@, registry) && self.objects@[k].attached_to_player is None
                    ==> r.1@.contains(k as usize)),
    {
        let mut equipment: Vec<usize> = Vec::new();
        let mut auras: Vec<usize> = Vec::new();
        let mut i: usize = 0;
        while i < self.objects.len()
            invariant
                sba_ok(*self),
                i <= self.objects@.len(),
                increasing(equipment@) && increasing(auras@),
                forall|m: int| 0 <= m < equipment@.len() ==> (#[trigger] equipment@[m]) < i && attachment_gone(*self, equipment@[m] as int)
                    && self.spec_has_subtype(self.objects@[equipment@[m] as int].id, "Equipment"@, registry),
                forall|m: int| 0 <= m < auras@.len() ==> (#[trigger] auras@[m]) < i && attachment_gone(*self, auras@[m] as int)
                    && !self.spec_has_subtype(self.objects@[auras@[m] as int].id, "Equipment"@, registry)
                    && self.objects@[auras@[m] as int].attached_to_player is None,
                forall|k: int| 0 <= k < i && #[trigger] attachment_gone(*self, k) ==>
                    (self.spec_has_subtype(self.objects@[k].id, "Equipment"@, registry) ==> equipment@.contains(k as usize))
                    && (!self.spec_has_subtype(self.objects@[k].id, "Equipment"@, registry) && self.objects@[k].attached_to_player is None
                        ==> auras@.contains(k as usize)),
            decreases self.objects@.len() - i,
        {
            let ghost e0 = equipment@;
            let ghost a0 = auras@;
            if self.objects[i].zone == Zone::Battlefield {
                match self.objects[i].attached_to {
                    Some(t) => {
                        let gone = match self.get_object(t) {
                            Some(x) => x.zone != Zone::Battlefield,
                            None => true,
                        };
                        if gone {
                            let id = self.objects[i].id;
                            if self.is_equipment(id, registry) {
                                equipment.push(i);
                                proof { assert(equipment@[equipment@.len() - 1] == i); }
                            } else if self.objects[i].attached_to_player.is_none() {
                                auras.push(i);
                                proof { assert(auras@[auras@.len() - 1] == i); }
                            }
                        }
                    },
                    None => {},
                }
            }
            proof {
                assert forall|k: int| 0 <= k < i + 1 && #[trigger] attachment_gone(*self, k) implies
                    (self.spec_has_subtype(self.objects@[k].id, "Equipment"@, registry) ==> equipment@.contains(k as usize))
                    && (!self.spec_has_subtype(self.objects@[k].id, "Equipment"@, registry) && self.objects@[k].attached_to_player is None
                        ==> auras@.contains(k as usize)) by {
                    if k < i {
                        if e0.contains(k as usize) {
                            let w = choose|w: int| 0 <= w < e0.len() && e0[w] == k as usize;
                            assert(equipment@[w] == e0[w]);
                        }
                        if a0.contains(k as usize) {
                            let w = choose|w: int| 0 <= w < a0.len() && a0[w] == k as usize;
                            assert(auras@[w] == a0[w]);
                        }
                    }
                }
            }
            i = i + 1;
        }
        (equipment, auras)
    }

    /// CR 704.5m-n: Equipment whose object has left the battlefield comes
    /// off it; an Aura in that state, unless it is on a player, goes to its
    /// owner's graveyard.
    fn sba_attachments(&mut self, registry: &CardRegistry) -> (took: bool)
        requires
            sba_ok(*old(self)),
        ensures
            sba_ok(*final(self)),
            sba_measure(*final(self)) <= sba_measure(*old(self)),
            took ==> sba_measure(*final(self)) < sba_measure(*old(self)),
            !took ==> *final(self) == *old(self) && attachments_settled(*old(self), *registry),
            took ==> !attachments_settled(*old(self), *registry),
            final(self).result == old(self).result && final(self).awaiting_action == old(self).awaiting_action,
            players_kept(*old(self), *final(self)),
            sba_frame(*old(self), *final(self)),
            sba_step(*old(self), *final(self), *registry),
    {
        let ghost st = *self;
        let (equipment, auras) = self.sba_unattached(registry);
        proof { assert(st.objects.len() == st.objects@.len()); }
        let mut took = false;
        let mut j: usize = 0;
        while j < equipment.len()
            invariant
                sba_ok(*self),
                j <= equipment@.len(),
                increasing(equipment@),
                forall|m: int| 0 <= m < equipment@.len() ==> (#[trigger] equipment@[m]) < st.objects@.len() && attachment_gone(st, equipment@[m] as int),
                forall|m: int| 0 <= m < auras@.len() ==> (#[trigger] auras@[m]) < st.objects@.len() && attachment_gone(st, auras@[m] as int)
                    && !st.spec_has_subtype(st.objects@[auras@[m] as int].id, "Equipment"@, registry)
                    && st.objects@[auras@[m] as int].attached_to_player is None,
                forall|m: int| 0 <= m < equipment@.len() ==> st.spec_has_subtype(st.objects@[#[trigger] equipment@[m] as int].id, "Equipment"@, registry),
                self.objects@.len() == st.objects@.len(),
                forall|k: int| 0 <= k < st.objects@.len() ==> (#[trigger] self.objects@[k]).id == st.objects@[k].id,
                forall|m: int| j <= m < equipment@.len() ==> self.objects@[#[trigger] equipment@[m] as int] == st.objects@[equipment@[m] as int],
                forall|k: int| 0 <= k < st.objects@.len() ==> obj_step(#[trigger] st.objects@[k], self.objects@[k]) && obj_change(st, *registry, k, self.objects@[k]),
                forall|m: int| 0 <= m < auras@.len() ==> self.objects@[#[trigger] auras@[m] as int] == st.objects@[auras@[m] as int],
                sba_measure(*self) <= sba_measure(st),
                took ==> sba_measure(*self) < sba_measure(st),
                !took ==> *self == st,
                took ==> !attachments_settled(st, *registry),
                took == (j > 0),
                self.result == st.result && self.awaiting_action == st.awaiting_action,
                self.players == st.players,
            decreases equipment@.len() - j,
        {
            let idx = equipment[j];
            let ghost before = *self;
            proof {
                assert forall|m: int| 0 <= m < auras@.len() implies auras@[m] != idx by {
                    assert(st.spec_has_subtype(st.objects@[equipment@[j as int] as int].id, "Equipment"@, registry));
                }
            }
            proof {
                let k = equipment@[j as int] as int;
                if attachments_settled(st, *registry) {
                    assert(attachment_gone(st, k));
                    assert(false);
                }
            }
            detach(&mut self.objects[idx]);
            proof {
                lemma_weight_update(before.objects@, idx as int, self.objects@[idx as int]);
                lemma_alive_same(before.players@, self.players@);
                assert(self.objects@ == before.objects@.update(idx as int, self.objects@[idx as int]));
                assert forall|k: int| 0 <= k < self.objects@.len() implies (#[trigger] self.objects@[k]).owner.0 < self.players@.len()
                    && self.objects@[k].controller.0 < 255 by {
                    assert(self.objects@[k].owner == before.objects@[k].owner);
                    assert(self.objects@[k].controller == before.objects@[k].controller);
                }
                assert forall|a: int, b: int| 0 <= a < b < self.objects@.len() implies
                    self.objects@[a].id.0 < self.objects@[b].id.0 by {
                    assert(self.objects@[a].id == before.objects@[a].id);
                    assert(self.objects@[b].id == before.objects@[b].id);
                }
                assert forall|a: int| 0 <= a < self.objects@.len() implies self.objects@[a].id.0 < self.next_object_id by {
                    assert(self.objects@[a].id == before.objects@[a].id);
                }
                assert(attachment_gone(st, idx as int));
            }
            took = true;
            j = j + 1;
        }
        let mut j: usize = 0;
        while j < auras.len()
            invariant
                sba_ok(*self),
                j <= auras@.len(),
                increasing(auras@),
                forall|m: int| 0 <= m < auras@.len() ==> (#[trigger] auras@[m]) < st.objects@.len() && attachment_gone(st, auras@[m] as int),
                self.objects@.len() == st.objects@.len(),
                forall|k: int| 0 <= k < st.objects@.len() ==> (#[trigger] self.objects@[k]).id == st.objects@[k].id,
                forall|m: int| j <= m < auras@.len() ==> self.objects@[#[trigger] auras@[m] as int] == st.objects@[auras@[m] as int],
                forall|k: int| 0 <= k < st.objects@.len() ==> obj_step(#[trigger] st.objects@[k], self.objects@[k]) && obj_change(st, *registry, k, self.objects@[k]),
                sba_measure(*self) <= sba_measure(st),
                took ==> sba_measure(*self) < sba_measure(st),
                !took ==> *self == st && equipment@.len() == 0,
                took ==> !attachments_settled(st, *registry),
                forall|m: int| 0 <= m < auras@.len() ==> !st.spec_has_subtype(st.objects@[#[trigger] auras@[m] as int].id, "Equipment"@, registry)
                    && st.objects@[auras@[m] as int].attached_to_player is None,
                took == (j > 0 || equipment@.len() > 0),
                self.result == st.result && self.awaiting_action == st.awaiting_action,
                players_kept(st, *self),
            decreases auras@.len() - j,
        {
            let idx = auras[j];
            let id = self.objects[idx].id;
            let ghost before = *self;
            proof {
                crate::state::lemma_find_unique(self.objects@, self.next_object_id, id, idx as int);
                assert(attachment_gone(st, idx as int));
            }
            proof {
                if attachments_settled(st, *registry) {
                    assert(!st.spec_has_subtype(st.objects@[auras@[j as int] as int].id, "Equipment"@, registry));
                    assert(attachment_gone(st, idx as int));
                    assert(false);
                }
            }
            self.sba_to_graveyard(id, registry);
            proof {
                assert forall|q: int| j + 1 <= q < auras@.len() implies self.objects@[#[trigger] auras@[q] as int] == st.objects@[auras@[q] as int] by {
                    lemma_ids_differ(before.objects@, before.next_object_id, auras@[q] as int, idx as int);
                }
                assert forall|k: int| 0 <= k < st.objects@.len() implies obj_step(#[trigger] st.objects@[k], self.objects@[k]) && obj_change(st, *registry, k, self.objects@[k]) by {
                    if k != idx as int {
                        lemma_ids_differ(before.objects@, before.next_object_id, k, idx as int);
                    }
                }
            }
            took = true;
            j = j + 1;
        }
        proof {
            if !took {
                assert forall|k: int| 0 <= k < st.objects@.len() && #[trigger] attachment_gone(st, k) implies
                    !st.spec_has_subtype(st.objects@[k].id, "Equipment"@, registry) && st.objects@[k].attached_to_player is Some by {
                    if st.spec_has_subtype(st.objects@[k].id, "Equipment"@, registry) {
                        assert(equipment@.contains(k as usize));
                    } else if st.objects@[k].attached_to_player is None {
                        assert(auras@.contains(k as usize));
                    }
                }
            }
            lemma_kept_by_index(st, *self);
            lemma_step_by_index(st, *self, *registry);
        }
        took
    }
}

/// The entry found for a kind is in range and of that kind.
proof fn lemma_counter_index_in(c: Seq<(CounterType, u32)>, ct: CounterType)
    ensures
        counter_index(c, ct) matches Some(k) ==> 0 <= k < c.len() && c[k].0 == ct,
    decreases c.len(),
{
    if c.len() > 0 {
        lemma_counter_index_in(c.drop_last(), ct);
    }
}

/// Changing one entry changes the total by the difference.
proof fn lemma_total_update(c: Seq<(CounterType, u32)>, k: int, v: (CounterType, u32))
    requires
        0 <= k < c.len(),
    ensures
        counter_total(c.update(k, v)) == counter_total(c) - c[k].1 + v.1,
    decreases c.len(),
{
    if k < c.len() - 1 {
        assert(c.update(k, v).drop_last() =~= c.drop_last().update(k, v));
        lemma_total_update(c.drop_last(), k, v);
    } else {
        assert(c.update(k, v).drop_last() =~= c.drop_last());
    }
}

/// Dropping one entry takes its count off the total.
proof fn lemma_total_remove(c: Seq<(CounterType, u32)>, k: int)
    requires
        0 <= k < c.len(),
    ensures
        counter_total(c.remove(k)) == counter_total(c) - c[k].1,
    decreases c.len(),
{
    if k < c.len() - 1 {
        assert(c.remove(k).drop_last() =~= c.drop_last().remove(k));
        assert(c.remove(k).last() == c.last());
        lemma_total_remove(c.drop_last(), k);
    } else {
        assert(c.remove(k) =~= c.drop_last());
    }
}

/// Removing counters never adds to the total, and removing some of a kind
/// that is there lowers it.
proof fn lemma_total_remove_counters(c: Seq<(CounterType, u32)>, ct: CounterType, n: u32)
    ensures
        counter_total(spec_remove_counters(c, ct, n)) <= counter_total(c),
        n > 0 && spec_counter(c, ct) > 0 ==> counter_total(spec_remove_counters(c, ct, n)) < counter_total(c),
{
    lemma_counter_index_in(c, ct);
    match counter_index(c, ct) {
        Some(k) => {
            if c[k].1 <= n {
                lemma_total_remove(c, k);
            } else {
                lemma_total_update(c, k, (ct, (c[k].1 - n) as u32));
            }
        },
        None => {},
    }
}

/// A permanent's counters after the removal of some of one kind.
proof fn lemma_weight_counters(o: GameObject, n: GameObject)
    requires
        n == (GameObject { counters: n.counters, ..o }),
        counter_total(n.counters@) <= counter_total(o.counters@),
    ensures
        weight(n) <= weight(o),
        o.zone == Zone::Battlefield && counter_total(n.counters@) < counter_total(o.counters@) ==> weight(n) < weight(o),
{
}

impl GameState {
    /// Remove counters from the object at a position, as a state-based
    /// action.
    fn sba_remove_counters(&mut self, i: usize, ct: CounterType, n: u32)
        requires
            sba_ok(*old(self)),
            i < old(self).objects@.len(),
        ensures
            sba_ok(*final(self)),
            sba_measure(*final(self)) <= sba_measure(*old(self)),
            n > 0 && spec_counter(old(self).objects@[i as int].counters@, ct) > 0 && old(self).objects@[i as int].zone == Zone::Battlefield
                ==> sba_measure(*final(self)) < sba_measure(*old(self)),
            final(self).objects@ == old(self).objects@.update(i as int, final(self).objects@[i as int]),
            final(self).objects@[i as int] == (GameObject { counters: final(self).objects@[i as int].counters, ..old(self).objects@[i as int] }),
            final(self).objects@[i as int].counters@ == spec_remove_counters(old(self).objects@[i as int].counters@, ct, n),
            *final(self) == (GameState { objects: final(self).objects, ..*old(self) }),
    {
        let ghost st = *self;
        let id = self.objects[i].id;
        proof {
            crate::state::lemma_find_unique(self.objects@, self.next_object_id, id, i as int);
        }
        self.remove_counters(id, ct, n);
        proof {
            let o = st.objects@[i as int];
            let m = self.objects@[i as int];
            lemma_remove_counts(o.counters@, ct, n, ct);
            lemma_total_remove_counters(o.counters@, ct, n);
            lemma_weight_counters(o, m);
            lemma_weight_update(st.objects@, i as int, m);
            assert forall|k: int| 0 <= k < self.objects@.len() implies (#[trigger] self.objects@[k]).owner.0 < self.players@.len()
                && self.objects@[k].controller.0 < 255 && crate::laws::kinds_distinct(self.objects@[k].counters@) by {
                assert(self.objects@[k].owner == st.objects@[k].owner);
                assert(self.objects@[k].controller == st.objects@[k].controller);
                if k != i as int { assert(self.objects@[k] == st.objects@[k]); }
            }
            assert forall|a: int, b: int| 0 <= a < b < self.objects@.len() implies
                self.objects@[a].id.0 < self.objects@[b].id.0 by {
                assert(self.objects@[a].id == st.objects@[a].id);
                assert(self.objects@[b].id == st.objects@[b].id);
            }
            assert forall|a: int| 0 <= a < self.objects@.len() implies self.objects@[a].id.0 < self.next_object_id by {
                assert(self.objects@[a].id == st.objects@[a].id);
            }
        }
    }

    /// +1/+1 and -1/-1 counters on the permanent at `i` annihilate in pairs
    /// (CR 704.5q) until one kind is gone.
    #[verifier::rlimit(80)]
    fn sba_annihilate(&mut self, i: usize)
        requires
            sba_ok(*old(self)),
            i < old(self).objects@.len(),
            old(self).objects@[i as int].zone == Zone::Battlefield,
            spec_counter(old(self).objects@[i as int].counters@, CounterType::PlusOnePlusOne) > 0,
            spec_counter(old(self).objects@[i as int].counters@, CounterType::MinusOneMinusOne) > 0,
        ensures
            sba_ok(*final(self)),
            sba_measure(*final(self)) < sba_measure(*old(self)),
            final(self).objects@ == old(self).objects@.update(i as int, final(self).objects@[i as int]),
            final(self).objects@[i as int] == (GameObject { counters: final(self).objects@[i as int].counters, ..old(self).objects@[i as int] }),
            spec_counter(final(self).objects@[i as int].counters@, CounterType::PlusOnePlusOne) == 0
                || spec_counter(final(self).objects@[i as int].counters@, CounterType::MinusOneMinusOne) == 0,
            annihilated(old(self).objects@[i as int], final(self).objects@[i as int]),
            *final(self) == (GameState { objects: final(self).objects, ..*old(self) }),
    {
        let ghost st = *self;
        let id = self.objects[i].id;
        proof { crate::state::lemma_find_unique(self.objects@, self.next_object_id, id, i as int); }
        let mut first = true;
        loop
            invariant
                sba_ok(*self),
                i < self.objects@.len(),
                self.objects@.len() == st.objects@.len(),
                self.objects@[i as int].id == id,
                self.spec_index(id) == Some(i as int),
                self.objects@ == st.objects@.update(i as int, self.objects@[i as int]),
                self.objects@[i as int] == (GameObject { counters: self.objects@[i as int].counters, ..st.objects@[i as int] }),
                *self == (GameState { objects: self.objects, ..st }),
                first ==> *self == st,
                !first ==> sba_measure(*self) < sba_measure(st),
                !first ==> annihilated(st.objects@[i as int], self.objects@[i as int]),
                st.objects@[i as int].zone == Zone::Battlefield,
                spec_counter(st.objects@[i as int].counters@, CounterType::PlusOnePlusOne) > 0,
                spec_counter(st.objects@[i as int].counters@, CounterType::MinusOneMinusOne) > 0,
            ensures
                sba_ok(*self),
                sba_measure(*self) < sba_measure(st),
                self.objects@ == st.objects@.update(i as int, self.objects@[i as int]),
                self.objects@[i as int] == (GameObject { counters: self.objects@[i as int].counters, ..st.objects@[i as int] }),
                *self == (GameState { objects: self.objects, ..st }),
                spec_counter(self.objects@[i as int].counters@, CounterType::PlusOnePlusOne) == 0
                    || spec_counter(self.objects@[i as int].counters@, CounterType::MinusOneMinusOne) == 0,
                annihilated(st.objects@[i as int], self.objects@[i as int]),
            decreases sba_measure(*self),
        {
            let plus = self.get_counter_count(id, CounterType::PlusOnePlusOne);
            let minus = self.get_counter_count(id, CounterType::MinusOneMinusOne);
            if plus == 0 || minus == 0 {
                break;
            }
            let n = if plus < minus { plus } else { minus };
            let ghost before = *self;
            assert(before.objects@[i as int].zone == Zone::Battlefield);
            proof {
                if !first {
                    assert(false);
                }
                assert(before.objects@[i as int] == st.objects@[i as int]);
                assert(crate::laws::kinds_distinct(st.objects@[i as int].counters@));
            }
            self.sba_remove_counters(i, CounterType::PlusOnePlusOne, n);
            let ghost mid = *self;
            self.sba_remove_counters(i, CounterType::MinusOneMinusOne, n);
            proof {
                let c0 = st.objects@[i as int].counters@;
                let c1 = mid.objects@[i as int].counters@;
                assert forall|ct: CounterType| ct != CounterType::PlusOnePlusOne && ct != CounterType::MinusOneMinusOne
                    implies #[trigger] spec_counter(self.objects@[i as int].counters@, ct) == spec_counter(c0, ct) by {
                    lemma_remove_counts(c0, CounterType::PlusOnePlusOne, n, ct);
                    lemma_remove_counts(c1, CounterType::MinusOneMinusOne, n, ct);
                }
                lemma_remove_counts(c0, CounterType::PlusOnePlusOne, n, CounterType::MinusOneMinusOne);
                lemma_remove_counts(c1, CounterType::MinusOneMinusOne, n, CounterType::PlusOnePlusOne);
                assert(annihilated(st.objects@[i as int], self.objects@[i as int]));
            }
            proof {
                assert forall|k: int| 0 <= k < before.objects@.len() implies #[trigger] before.objects@[k].id == self.objects@[k].id by {
                    if k != i as int { assert(before.objects@[k] == self.objects@[k]); }
                }
                crate::state::lemma_find_same_ids(before.objects@, self.objects@, id, 0);
                assert(self.objects@ =~= st.objects@.update(i as int, self.objects@[i as int]));
            }
            first = false;
        }
    }

    /// CR 704.5q: +1/+1 and -1/-1 counters on a permanent cancel in pairs.
    fn sba_counters(&mut self) -> (took: bool)
        requires
            sba_ok(*old(self)),
        ensures
            sba_ok(*final(self)),
            sba_measure(*final(self)) <= sba_measure(*old(self)),
            took ==> sba_measure(*final(self)) < sba_measure(*old(self)),
            !took ==> *final(self) == *old(self) && counters_settled(*old(self)),
            took ==> !counters_settled(*old(self)),
            *final(self) == (GameState { objects: final(self).objects, ..*old(self) }),
            sba_frame(*old(self), *final(self)),
            counters_settled(*final(self)),
            annihilated_only(*old(self), *final(self)),
    {
        let ghost st = *self;
        let mut took = false;
        let mut i: usize = 0;
        while i < self.objects.len()
            invariant
                sba_ok(*self),
                i <= self.objects@.len(),
                self.objects@.len() == st.objects@.len(),
                forall|k: int| i <= k < st.objects@.len() ==> #[trigger] self.objects@[k] == st.objects@[k],
                forall|k: int| 0 <= k < st.objects@.len() ==> (#[trigger] self.objects@[k]).id == st.objects@[k].id,
                forall|k: int| 0 <= k < st.objects@.len() ==> obj_step(#[trigger] st.objects@[k], self.objects@[k]) && (self.objects@[k] == st.objects@[k] || annihilated(st.objects@[k], self.objects@[k])),
                *self == (GameState { objects: self.objects, ..st }),
                forall|k: int| 0 <= k < i ==> (#[trigger] self.objects@[k]).zone == Zone::Battlefield ==>
                    spec_counter(self.objects@[k].counters@, CounterType::PlusOnePlusOne) == 0
                    || spec_counter(self.objects@[k].counters@, CounterType::MinusOneMinusOne) == 0,
                sba_measure(*self) <= sba_measure(st),
                took ==> sba_measure(*self) < sba_measure(st),
                !took ==> *self == st,
                took ==> !counters_settled(st),
                !took ==> forall|k: int| 0 <= k < i ==> (#[trigger] st.objects@[k]).zone == Zone::Battlefield ==>
                    spec_counter(st.objects@[k].counters@, CounterType::PlusOnePlusOne) == 0
                    || spec_counter(st.objects@[k].counters@, CounterType::MinusOneMinusOne) == 0,
            decreases self.objects@.len() - i,
        {
            let id = self.objects[i].id;
            proof {
                crate::state::lemma_find_unique(self.objects@, self.next_object_id, id, i as int);
            }
            let plus = self.get_counter_count(id, CounterType::PlusOnePlusOne);
            let minus = self.get_counter_count(id, CounterType::MinusOneMinusOne);
            if self.objects[i].zone == Zone::Battlefield && plus > 0 && minus > 0 {
                let ghost before = *self;
                proof {
                    if !took && counters_settled(st) {
                        assert(st.objects@[i as int].zone == Zone::Battlefield);
                        assert(false);
                    }
                }
                self.sba_annihilate(i);
                proof {
                    assert forall|k: int| i + 1 <= k < st.objects@.len() implies #[trigger] self.objects@[k] == st.objects@[k] by {
                        assert(self.objects@[k] == before.objects@[k]);
                    }
                    assert forall|k: int| 0 <= k < st.objects@.len() implies (#[trigger] self.objects@[k]).id == st.objects@[k].id by {
                        assert(self.objects@[k].id == before.objects@[k].id);
                    }
                    assert forall|k: int| 0 <= k < st.objects@.len() implies obj_step(#[trigger] st.objects@[k], self.objects@[k]) && (self.objects@[k] == st.objects@[k] || annihilated(st.objects@[k], self.objects@[k])) by {
                        if k != i as int {
                            assert(self.objects@[k] == before.objects@[k]);
                        }
                    }
                }
                took = true;
            }
            i = i + 1;
        }
        proof {
            lemma_kept_by_index(st, *self);
            reveal(annihilated_only);
        }
        took
    }
}

/// Only +1/+1 and -1/-1 counters annihilating changed among the objects.
#[verifier::opaque]
pub open spec fn annihilated_only(a: GameState, b: GameState) -> bool {
    &&& b.objects@.len() == a.objects@.len()
    &&& forall|k: int| 0 <= k < a.objects@.len() ==> (#[trigger] b.objects@[k]).id == a.objects@[k].id
        && (b.objects@[k] == a.objects@[k] || annihilated(a.objects@[k], b.objects@[k]))
}

/// A planeswalker on the battlefield with no loyalty (CR 704.5i).
pub open spec fn pw_dies(st: GameState, reg: CardRegistry, k: int) -> bool {
    let o = st.objects@[k];
    &&& o.zone == Zone::Battlefield
    &&& spec_counter(o.counters@, CounterType::Loyalty) == 0
    &&& st.spec_card_types(o.id, &reg).contains(CardType::Planeswalker)
}

/// No planeswalker is due to die.
pub open spec fn planeswalkers_settled(st: GameState, reg: CardRegistry) -> bool {
    forall|k: int| 0 <= k < st.objects@.len() ==> !#[trigger] pw_dies(st, reg, k)
}

impl GameState {
    /// A planeswalker with no loyalty is put into its owner's graveyard,
    /// with a log line.
    fn sba_planeswalker_dies(&mut self, id: ObjectId, registry: &CardRegistry)
        requires
            sba_ok(*old(self)),
        ensures
            sba_ok(*final(self)),
            sba_measure(*final(self)) <= sba_measure(*old(self)),
            old(self).in_zone(id, Zone::Battlefield) ==> sba_measure(*final(self)) < sba_measure(*old(self)),
            final(self).result == old(self).result,
            final(self).awaiting_action == old(self).awaiting_action,
            players_kept(*old(self), *final(self)),
            final(self).objects@.len() == old(self).objects@.len(),
            forall|k: int| 0 <= k < old(self).objects@.len() ==> (#[trigger] final(self).objects@[k]).id == old(self).objects@[k].id,
            forall|k: int| 0 <= k < old(self).objects@.len() && old(self).objects@[k].id != id ==> #[trigger] final(self).objects@[k] == old(self).objects@[k],
            forall|k: int| 0 <= k < old(self).objects@.len() && old(self).objects@[k].id == id ==> (#[trigger] final(self).objects@[k]).zone == Zone::Graveyard
                && final(self).objects@[k].owner == old(self).objects@[k].owner && final(self).objects@[k].is_token == old(self).objects@[k].is_token,
    {
        let mut line = self.obj_name(id);
        line.append(" has 0 loyalty and is put into graveyard");
        self.log(LogLevel::Event, line);
        self.sba_to_graveyard(id, registry);
    }

    /// CR 704.5i: planeswalkers with no loyalty go to the graveyard.
    fn sba_planeswalkers(&mut self, registry: &CardRegistry) -> (took: bool)
        requires
            sba_ok(*old(self)),
        ensures
            sba_ok(*final(self)),
            sba_measure(*final(self)) <= sba_measure(*old(self)),
            took ==> sba_measure(*final(self)) < sba_measure(*old(self)),
            !took ==> *final(self) == *old(self) && planeswalkers_settled(*old(self), *registry),
            took ==> !planeswalkers_settled(*old(self), *registry),
            final(self).result == old(self).result && final(self).awaiting_action == old(self).awaiting_action,
            players_kept(*old(self), *final(self)),
            sba_frame(*old(self), *final(self)),
            sba_step(*old(self), *final(self), *registry),
            counters_settled(*old(self)) ==> counters_settled(*final(self)),
    {
        let ghost st = *self;
        let mut dying: Vec<usize> = Vec::new();
        let mut i: usize = 0;
        while i < self.objects.len()
            invariant
                *self == st,
                sba_ok(st),
                i <= st.objects@.len(),
                increasing(dying@),
                forall|m: int| 0 <= m < dying@.len() ==> (#[trigger] dying@[m]) < i && pw_dies(st, *registry, dying@[m] as int),
                forall|k: int| 0 <= k < i && #[trigger] pw_dies(st, *registry, k) ==> dying@.contains(k as usize),
            decreases st.objects@.len() - i,
        {
            let ghost d0 = dying@;
            let id = self.objects[i].id;
            proof {
                crate::state::lemma_find_unique(self.objects@, self.next_object_id, id, i as int);
            }
            if self.objects[i].zone == Zone::Battlefield && self.get_counter_count(id, CounterType::Loyalty) == 0
                && self.has_card_type(id, CardType::Planeswalker, registry) {
                dying.push(i);
                proof { assert(dying@[dying@.len() - 1] == i); }
            }
            proof {
                assert forall|k: int| 0 <= k < i + 1 && #[trigger] pw_dies(st, *registry, k) implies dying@.contains(k as usize) by {
                    if k < i {
                        let w = choose|w: int| 0 <= w < d0.len() && d0[w] == k as usize;
                        assert(dying@[w] == d0[w]);
                    } else {
                        assert(dying@[dying@.len() - 1] == i);
                    }
                }
            }
            i = i + 1;
        }
        let mut took = false;
        let mut j: usize = 0;
        while j < dying.len()
            invariant
                sba_ok(*self),
                j <= dying@.len(),
                increasing(dying@),
                forall|m: int| 0 <= m < dying@.len() ==> (#[trigger] dying@[m]) < st.objects@.len() && pw_dies(st, *registry, dying@[m] as int),
                self.objects@.len() == st.objects@.len(),
                forall|k: int| 0 <= k < st.objects@.len() ==> (#[trigger] self.objects@[k]).id == st.objects@[k].id,
                forall|m: int| j <= m < dying@.len() ==> self.objects@[#[trigger] dying@[m] as int] == st.objects@[dying@[m] as int],
                forall|k: int| 0 <= k < st.objects@.len() ==> obj_step(#[trigger] st.objects@[k], self.objects@[k]) && obj_change(st, *registry, k, self.objects@[k]),
                sba_measure(*self) <= sba_measure(st),
                took ==> sba_measure(*self) < sba_measure(st),
                !took ==> *self == st,
                took ==> !planeswalkers_settled(st, *registry),
                took == (j > 0),
                self.result == st.result && self.awaiting_action == st.awaiting_action,
                players_kept(st, *self),
                counters_settled(st) ==> counters_settled(*self),
            decreases dying@.len() - j,
        {
            let idx = dying[j];
            let id = self.objects[idx].id;
            let ghost before = *self;
            proof {
                crate::state::lemma_find_unique(self.objects@, self.next_object_id, id, idx as int);
                assert(pw_dies(st, *registry, idx as int));
            }
            proof {
                if planeswalkers_settled(st, *registry) {
                    assert(!pw_dies(st, *registry, idx as int));
                }
            }
            self.sba_planeswalker_dies(id, registry);
            proof {
                if counters_settled(st) {
                    assert forall|k: int| 0 <= k < self.objects@.len() implies (#[trigger] self.objects@[k]).zone == Zone::Battlefield ==>
                        spec_counter(self.objects@[k].counters@, CounterType::PlusOnePlusOne) == 0
                        || spec_counter(self.objects@[k].counters@, CounterType::MinusOneMinusOne) == 0 by {
                        if k != idx as int {
                            lemma_ids_differ(before.objects@, before.next_object_id, k, idx as int);
                            assert(self.objects@[k] == before.objects@[k]);
                        }
                    }
                }
                assert forall|q: int| j + 1 <= q < dying@.len() implies self.objects@[#[trigger] dying@[q] as int] == st.objects@[dying@[q] as int] by {
                    lemma_ids_differ(before.objects@, before.next_object_id, dying@[q] as int, idx as int);
                }
                assert forall|k: int| 0 <= k < st.objects@.len() implies obj_step(#[trigger] st.objects@[k], self.objects@[k]) && obj_change(st, *registry, k, self.objects@[k]) by {
                    if k != idx as int {
                        lemma_ids_differ(before.objects@, before.next_object_id, k, idx as int);
                    }
                }
            }
            took = true;
            j = j + 1;
        }
        proof {
            if !took {
                assert forall|k: int| 0 <= k < st.objects@.len() implies !#[trigger] pw_dies(st, *registry, k) by {
                    if pw_dies(st, *registry, k) {
                        assert(dying@.contains(k as usize));
                    }
                }
            }
            lemma_kept_by_index(st, *self);
            lemma_step_by_index(st, *self, *registry);
        }
        took
    }
}

/// The permanent at `k` is a legendary permanent of `player` named `name`.
pub open spec fn in_legend_group(st: GameState, reg: CardRegistry, k: int, player: PlayerId, name: Seq<char>) -> bool {
    let o = st.objects@[k];
    &&& o.zone == Zone::Battlefield
    &&& o.controller == player
    &&& st.spec_is_legendary(o.id, &reg)
    &&& st.spec_name(o.id, &reg) == name
}

/// Two different legendary permanents with one controller and one name
/// (CR 704.5j).
pub open spec fn legend_dup(st: GameState, reg: CardRegistry, a: int, b: int) -> bool {
    let o = st.objects@[a];
    &&& a != b
    &&& in_legend_group(st, reg, a, o.controller, st.spec_name(o.id, &reg))
    &&& in_legend_group(st, reg, b, o.controller, st.spec_name(o.id, &reg))
}

/// No player controls two legendary permanents with the same name.
pub open spec fn legends_settled(st: GameState, reg: CardRegistry) -> bool {
    forall|a: int, b: int| 0 <= a < st.objects@.len() && 0 <= b < st.objects@.len() ==> !#[trigger] legend_dup(st, reg, a, b)
}

/// The target names a legendary permanent of `player` named `name`.
pub open spec fn names_legend(st: GameState, reg: CardRegistry, t: Target, player: PlayerId, name: Seq<char>) -> bool {
    exists|k: int| 0 <= k < st.objects@.len() && t == Target::Object(st.objects@[k].id)
        && #[trigger] in_legend_group(st, reg, k, player, name)
}

/// The question the legend rule asks: the controller chooses, among all of
/// a duplicate group and nothing else, the one to keep.
pub open spec fn legend_prompt(st: GameState, reg: CardRegistry, aw: Option<AwaitingAction>) -> bool {
    match aw {
        Some(AwaitingAction::ResolutionChoice { player, source, choice }) => match choice {
            ResolutionChoiceKind::ChooseTarget { description, options, optional, effect } => match effect {
                PendingEffect::LegendRuleKeep { player: p2, legend_name } => {
                    &&& p2 == player
                    &&& !optional
                    &&& description@ == "Legend rule: choose which "@ + legend_name@ + " to keep"@
                    &&& options@.len() >= 2
                    &&& options@[0] == Target::Object(source)
                    &&& forall|m: int| 0 <= m < options@.len() ==> names_legend(st, reg, #[trigger] options@[m], player, legend_name@)
                    &&& forall|k: int| 0 <= k < st.objects@.len() && #[trigger] in_legend_group(st, reg, k, player, legend_name@)
                        ==> options@.contains(Target::Object(st.objects@[k].id))
                },
                _ => false,
            },
            _ => false,
        },
        _ => false,
    }
}

impl GameState {
    /// The targets naming every legendary permanent of `player` named `name`.
    fn legend_group(&self, registry: &CardRegistry, player: PlayerId, name: &String) -> (g: Vec<Target>)
        requires
            self.wf(),
        ensures
            forall|m: int| 0 <= m < g@.len() ==> names_legend(*self, *registry, #[trigger] g@[m], player, name@),
            forall|k: int| 0 <= k < self.objects@.len() && #[trigger] in_legend_group(*self, *registry, k, player, name@)
                ==> g@.contains(Target::Object(self.objects@[k].id)),
            forall|a: int, b: int| 0 <= a < b < g@.len() ==> g@[a] != g@[b],
    {
        let mut g: Vec<Target> = Vec::new();
        let ghost mut pos: Seq<int> = Seq::empty();
        let mut k: usize = 0;
        while k < self.objects.len()
            invariant
                self.wf(),
                k <= self.objects@.len(),
                pos.len() == g@.len(),
                forall|m: int| 0 <= m < g@.len() ==> 0 <= #[trigger] pos[m] < k && g@[m] == Target::Object(self.objects@[pos[m]].id)
                    && in_legend_group(*self, *registry, pos[m], player, name@),
                forall|a: int, b: int| 0 <= a < b < pos.len() ==> pos[a] < pos[b],
                forall|q: int| 0 <= q < k && #[trigger] in_legend_group(*self, *registry, q, player, name@)
                    ==> g@.contains(Target::Object(self.objects@[q].id)),
            decreases self.objects@.len() - k,
        {
            let id = self.objects[k].id;
            proof {
                crate::state::lemma_find_unique(self.objects@, self.next_object_id, id, k as int);
            }
            let ghost g0 = g@;
            if self.objects[k].zone == Zone::Battlefield && self.objects[k].controller == player
                && self.is_legendary(id, registry) {
                let n = self.name_of(id, registry);
                if str_eq(n.as_str(), name.as_str()) {
                    g.push(Target::Object(id));
                    proof {
                        pos = pos.push(k as int);
                        assert(g@[g@.len() - 1] == Target::Object(id));
                    }
                }
            }
            proof {
                assert forall|q: int| 0 <= q < k + 1 && #[trigger] in_legend_group(*self, *registry, q, player, name@)
                    implies g@.contains(Target::Object(self.objects@[q].id)) by {
                    if q < k {
                        let w = choose|w: int| 0 <= w < g0.len() && g0[w] == Target::Object(self.objects@[q].id);
                        assert(g@[w] == g0[w]);
                    } else {
                        assert(g@[g@.len() - 1] == Target::Object(id));
                    }
                }
            }
            k = k + 1;
        }
        proof {
            assert forall|m: int| 0 <= m < g@.len() implies names_legend(*self, *registry, #[trigger] g@[m], player, name@) by {
                assert(g@[m] == Target::Object(self.objects@[pos[m]].id));
                assert(in_legend_group(*self, *registry, pos[m], player, name@));
            }
            assert forall|a: int, b: int| 0 <= a < b < g@.len() implies g@[a] != g@[b] by {
                lemma_ids_differ(self.objects@, self.next_object_id, pos[a], pos[b]);
            }
        }
        g
    }

    /// CR 704.5j: when a player controls two or more legendary permanents
    /// with the same name, that player is asked which one to keep; the
    /// checks stop until the answer comes.
    fn sba_legend(&mut self, registry: &CardRegistry) -> (asked: bool)
        requires
            sba_ok(*old(self)),
        ensures
            asked ==> *final(self) == (GameState { awaiting_action: final(self).awaiting_action, ..*old(self) })
                && legend_prompt(*old(self), *registry, final(self).awaiting_action),
            !asked ==> *final(self) == *old(self) && legends_settled(*old(self), *registry),
            asked ==> !legends_settled(*old(self), *registry),
            sba_frame(*old(self), *final(self)),
    {
        let ghost st = *self;
        proof {
            reveal_strlit("Legend rule: choose which ");
            reveal_strlit(" to keep");
        }
        let mut i: usize = 0;
        while i < self.objects.len()
            invariant
                *self == st,
                st == *old(self),
                sba_ok(st),
                i <= st.objects@.len(),
                forall|a: int, b: int| 0 <= a < i && 0 <= b < st.objects@.len() ==> !#[trigger] legend_dup(st, *registry, a, b),
            decreases st.objects@.len() - i,
        {
            let id = self.objects[i].id;
            proof {
                crate::state::lemma_find_unique(self.objects@, self.next_object_id, id, i as int);
            }
            if self.objects[i].zone == Zone::Battlefield && self.is_legendary(id, registry) {
                let player = self.objects[i].controller;
                let name = self.name_of(id, registry);
                let group = self.legend_group(registry, player, &name);
                proof {
                    assert(in_legend_group(st, *registry, i as int, player, name@));
                    assert(group@.contains(Target::Object(id)));
                }
                if group.len() > 1 {
                    let source = match group[0] {
                        Target::Object(x) => x,
                        _ => id,
                    };
                    proof {
                        assert(names_legend(st, *registry, group@[0], player, name@));
                        assert(names_legend(st, *registry, group@[1], player, name@));
                        let q0 = choose|q: int| 0 <= q < st.objects@.len() && group@[0] == Target::Object(st.objects@[q].id)
                            && #[trigger] in_legend_group(st, *registry, q, player, name@);
                        let q1 = choose|q: int| 0 <= q < st.objects@.len() && group@[1] == Target::Object(st.objects@[q].id)
                            && #[trigger] in_legend_group(st, *registry, q, player, name@);
                        assert(group@[0] != group@[1]);
                        let b = if q0 != i as int { q0 } else { q1 };
                        assert(b != i as int);
                        assert(legend_dup(st, *registry, i as int, b));
                        let q = choose|q: int| 0 <= q < st.objects@.len() && group@[0] == Target::Object(st.objects@[q].id)
                            && #[trigger] in_legend_group(st, *registry, q, player, name@);
                        assert(group@[0] == Target::Object(st.objects@[q].id));
                    }
                    let mut description = String::from_str("Legend rule: choose which ");
                    description.append(name.as_str());
                    description.append(" to keep");
                    proof {
                        assert(description@ == "Legend rule: choose which "@ + name@ + " to keep"@);
                        assert(group@.len() >= 2);
                        assert(group@[0] == Target::Object(source));
                    }
                    self.awaiting_action = Some(AwaitingAction::ResolutionChoice {
                        player,
                        source,
                        choice: ResolutionChoiceKind::ChooseTarget {
                            description,
                            options: group,
                            optional: false,
                            effect: PendingEffect::LegendRuleKeep { player, legend_name: name },
                        },
                    });
                    proof {
                        assert(*self == (GameState { awaiting_action: self.awaiting_action, ..st }));
                        assert(legend_prompt(st, *registry, self.awaiting_action));
                    }
                    return true;
                }
                proof {
                    assert forall|b: int| 0 <= b < st.objects@.len() implies !#[trigger] legend_dup(st, *registry, i as int, b) by {
                        if legend_dup(st, *registry, i as int, b) {
                            assert(in_legend_group(st, *registry, b, player, name@));
                            assert(group@.contains(Target::Object(st.objects@[b].id)));
                            lemma_ids_differ(st.objects@, st.next_object_id, i as int, b);
                            let w1 = choose|w: int| 0 <= w < group@.len() && group@[w] == Target::Object(id);
                            let w2 = choose|w: int| 0 <= w < group@.len() && group@[w] == Target::Object(st.objects@[b].id);
                            assert(w1 == 0 && w2 == 0);
                        }
                    }
                }
            }
            i = i + 1;
        }
        false
    }
}

/// Nothing left for the state-based actions to do.
pub open spec fn sba_settled(st: GameState, reg: CardRegistry) -> bool {
    &&& players_settled(st)
    &&& creatures_settled(st, reg)
    &&& attachments_settled(st, reg)
    &&& counters_settled(st)
    &&& planeswalkers_settled(st, reg)
    &&& legends_settled(st, reg)
    &&& tokens_settled(st)
    &&& end_settled(st)
}

/// One round of checks, up to the legend rule, extends the run.
proof fn lemma_round(tr: Seq<GameState>, st: GameState, s0: GameState, s1: GameState, s2: GameState, s3: GameState,
    s4: GameState, s5: GameState, reg: CardRegistry) -> (tr2: Seq<GameState>)
    requires
        sba_run(tr, st, s0, reg),
        s1.objects == s0.objects,
        sba_step(s1, s2, reg),
        sba_step(s2, s3, reg),
        annihilated_only(s3, s4),
        sba_step(s4, s5, reg),
    ensures
        sba_run(tr2, st, s5, reg),
{
    reveal(annihilated_only);
    lemma_step_same(s0, s1, reg);
    lemma_run_push(tr, st, s0, s1, reg);
    lemma_run_push(tr.push(s1), st, s1, s2, reg);
    lemma_run_push(tr.push(s1).push(s2), st, s2, s3, reg);
    assert forall|k: int| 0 <= k < s3.objects@.len() implies #[trigger] obj_change(s3, reg, k, s4.objects@[k]) by {
        assert(s4.objects@[k].id == s3.objects@[k].id);
    }
    lemma_step_by_index(s3, s4, reg);
    lemma_run_push(tr.push(s1).push(s2).push(s3), st, s3, s4, reg);
    lemma_run_push(tr.push(s1).push(s2).push(s3).push(s4), st, s4, s5, reg);
    tr.push(s1).push(s2).push(s3).push(s4).push(s5)
}

/// The tokens and the end of the game close the round.
proof fn lemma_round_end(tr: Seq<GameState>, st: GameState, s5: GameState, s6: GameState, s7: GameState,
    reg: CardRegistry) -> (tr2: Seq<GameState>)
    requires
        sba_run(tr, st, s5, reg),
        ceased_only(s5, s6),
        s7.objects == s6.objects,
    ensures
        sba_run(tr2, st, s7, reg),
{
    lemma_ceased_step(s5, s6, reg);
    lemma_run_push(tr, st, s5, s6, reg);
    lemma_step_same(s6, s7, reg);
    lemma_run_push(tr.push(s6), st, s6, s7, reg);
    tr.push(s6).push(s7)
}

/// Perform state-based actions, all that apply at once, and again until a
/// check finds nothing to do (CR 704.3). Returns whether any were
/// performed. A player controlling two legendary permanents with one name
/// is asked which to keep, and the checks stop there until the answer.
///
/// On return either nothing is left to do, or the legend rule's question
/// is being asked about the state as it now stands.
/// Every Aura on the battlefield is attached to an object or a player
/// (CR 303.4): the state-based actions are not defined on a state with a
/// free-standing Aura.
///
/// The checks are made one after another, each on the state the last one
/// left: a permanent leaves the battlefield only when, in the state its
/// check was made on, it was due to (`sba_due`); a permanent that stays is
/// what it was, but for regeneration, an Equipment coming off an object
/// that is gone, or its +1/+1 and -1/-1 counters annihilating; a token off
/// the battlefield may cease to exist; nothing else changes among the
/// objects (`sba_run`).
pub open spec fn auras_attached(st: GameState, reg: CardRegistry) -> bool {
    forall|k: int| 0 <= k < st.objects@.len() && (#[trigger] st.objects@[k]).zone == Zone::Battlefield
        && st.spec_has_subtype(st.objects@[k].id, "Aura"@, &reg)
        ==> st.objects@[k].attached_to is Some || st.objects@[k].attached_to_player is Some
}

#[verifier::rlimit(100)]
pub fn check_state_based_actions(state: &mut GameState, registry: &CardRegistry) -> (any: bool)
    requires
        sba_ok(*old(state)),
        auras_attached(*old(state), *registry),
    ensures
        sba_ok(*final(state)),
        !any ==> *final(state) == *old(state) && sba_settled(*old(state), *registry),
        any ==> sba_measure(*final(state)) < sba_measure(*old(state))
            || legend_prompt(GameState { awaiting_action: old(state).awaiting_action, ..*final(state) }, *registry, final(state).awaiting_action),
        (final(state).awaiting_action == old(state).awaiting_action && sba_settled(*final(state), *registry))
            || legend_prompt(GameState { awaiting_action: old(state).awaiting_action, ..*final(state) }, *registry, final(state).awaiting_action),
        sba_settled(*old(state), *registry) ==> !any,
        old(state).result is Some ==> final(state).result == old(state).result,
        final(state).players@.len() == old(state).players@.len(),
        forall|p: int| 0 <= p < old(state).players@.len() ==> (#[trigger] final(state).players@[p]).lost == loses(old(state).players@[p]),
        old(state).result is None ==> (final(state).result matches Some(r) ==> outcome_after_loss(old(state).players@, r)),
        sba_frame(*old(state), *final(state)),
        counters_settled(*final(state)),
        forall|p: int| 0 <= p < old(state).players@.len() ==> players_rest(old(state).players@[p], #[trigger] final(state).players@[p]),
        exists|tr: Seq<GameState>| sba_run(tr, *old(state), *final(state), *registry),
{
    let ghost st = *state;
    let mut any = false;
    let ghost mut tr: Seq<GameState> = seq![st];
    proof { lemma_run_start(st, *registry); }
    loop
        invariant
            st == *old(state),
            sba_ok(*state),
            state.awaiting_action == st.awaiting_action,
            st.result is Some ==> state.result == st.result,
            !any ==> *state == st,
            any ==> sba_measure(*state) < sba_measure(st),
            sba_settled(st, *registry) ==> !any,
            state.players@.len() == st.players@.len(),
            any ==> forall|p: int| 0 <= p < st.players@.len() ==> (#[trigger] state.players@[p]).lost == loses(st.players@[p])
                && state.players@[p].life == st.players@[p].life
                && state.players@[p].has_drawn_from_empty == st.players@[p].has_drawn_from_empty,
            forall|p: int| 0 <= p < st.players@.len() ==> (#[trigger] state.players@[p]).id == st.players@[p].id,
            forall|p: int| 0 <= p < st.players@.len() ==> players_rest(st.players@[p], #[trigger] state.players@[p]),
            st.result is None ==> (state.result matches Some(r) ==> outcome_after_loss(st.players@, r)),
            sba_frame(st, *state),
            sba_run(tr, st, *state, *registry),
        ensures
            sba_ok(*state),
            state.awaiting_action == st.awaiting_action,
            st.result is Some ==> state.result == st.result,
            !any ==> *state == st,
            any ==> sba_measure(*state) < sba_measure(st),
            sba_settled(*state, *registry),
            sba_settled(st, *registry) ==> !any,
            state.players@.len() == st.players@.len(),
            forall|p: int| 0 <= p < st.players@.len() ==> (#[trigger] state.players@[p]).lost == loses(st.players@[p]),
            st.result is None ==> (state.result matches Some(r) ==> outcome_after_loss(st.players@, r)),
            sba_frame(st, *state),
            forall|p: int| 0 <= p < st.players@.len() ==> players_rest(st.players@[p], #[trigger] state.players@[p]),
            sba_run(tr, st, *state, *registry),
        decreases sba_measure(*state),
    {
        let ghost s0 = *state;
        let t1 = state.sba_players();
        let ghost s1 = *state;
        let t2 = state.sba_creatures(registry);
        let ghost s2 = *state;
        let t3 = state.sba_attachments(registry);
        let ghost s3 = *state;
        let t4 = state.sba_counters();
        let ghost s4 = *state;
        let t5 = state.sba_planeswalkers(registry);
        let ghost s5 = *state;
        proof {
            tr = lemma_round(tr, st, s0, s1, s2, s3, s4, s5, *registry);
            lemma_kept_trans(st, s0, s1);
            lemma_kept_trans(st, s1, s2);
            lemma_kept_trans(st, s2, s3);
            lemma_kept_trans(st, s3, s4);
            lemma_kept_trans(st, s4, s5);
        }
        if state.sba_legend(registry) {
            proof {
                assert(GameState { awaiting_action: st.awaiting_action, ..*state } == s5);
                lemma_kept_trans(st, s5, *state);
                lemma_step_same(s5, *state, *registry);
                lemma_run_push(tr, st, s5, *state, *registry);
                tr = tr.push(*state);
            }
            return true;
        }
        let t6 = state.sba_tokens();
        let ghost s6 = *state;
        let t7 = state.sba_game_end();
        proof {
            tr = lemma_round_end(tr, st, s5, s6, *state, *registry);
            lemma_kept_trans(st, s5, s6);
            lemma_kept_trans(st, s6, *state);
            assert forall|p: int| 0 <= p < st.players@.len() implies (#[trigger] s6.players@[p]).lost == loses(st.players@[p])
                && s6.players@[p].id == st.players@[p].id by {}
            if st.result is None && s6.result is None && state.result is Some {
                lemma_outcome_loses(st.players@, s6.players@, state.result.unwrap());
            }
        }
        if !(t1 || t2 || t3 || t4 || t5 || t6 || t7) {
            break;
        }
        any = true;
    }
    any
}
} // verus!
