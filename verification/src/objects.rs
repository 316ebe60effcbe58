//! Creating the game and its objects, and the small operations every rule
//! goes through: tapping, counters, life, mana, losing, the log.

use vstd::prelude::*;
use crate::events::{GameEvent, LossReason};
use crate::ids::{CardId, ObjectId, PlayerId};
use crate::state::{
    find_from, lemma_find_from, Bookkeeping, CombatState, GameObject, GameResult, GameState, LogEntry,
    LogLevel, PlayerState, TokenFace,
};
use crate::text::{decimal, signed_decimal, spec_decimal, spec_signed_decimal};
use crate::types::{CounterType, ManaPool, ManaType, Step, Zone};
use crate::util::{drop_id, drop_key, remove_id, remove_keyed, str_eq};

verus! {

impl PlayerState {
    /// A player as a new game starts them.
    pub open spec fn is_fresh(&self, id: PlayerId) -> bool {
        &&& self.id == id
        &&& self.life == 40
        &&& self.mana_pool == ManaPool::spec_new()
        &&& self.land_plays_remaining == 1
        &&& !self.lost
        &&& self.loss_reason is None
        &&& !self.has_drawn_from_empty
        &&& self.library_order@.len() == 0
        &&& self.graveyard_order@.len() == 0
        &&& self.mulligan_count == 0
        &&& !self.mulligan_kept
    }
}

/// An object as `create_object` makes it.
pub open spec fn is_fresh_object(
    o: GameObject,
    id: ObjectId,
    card_id: CardId,
    owner: PlayerId,
    zone: Zone,
    power: Option<i32>,
    toughness: Option<i32>,
) -> bool {
    &&& o.id == id && o.card_id == card_id && o.name@.len() == 0
    &&& o.owner == owner && o.controller == owner && o.base_controller == owner
    &&& o.zone == zone && !o.tapped && o.summoning_sick == (zone == Zone::Battlefield)
    &&& o.last_controller is None && o.attacked_on_turn is None
    &&& o.damage_marked == 0 && o.damaged_by@.len() == 0 && !o.dealt_deathtouch_damage
    &&& o.power == power && o.toughness == toughness
    &&& o.colors@.len() == 0 && o.keywords@.len() == 0 && o.card_types@.len() == 0
    &&& o.subtypes@.len() == 0 && o.targets@.len() == 0
    &&& o.attached_to is None && o.attached_to_player is None && o.last_attached_to_player is None
    &&& o.zone_change_count == 0 && o.copy_grantor is None
    &&& !o.is_token && !o.is_legendary && !o.cast_with_flashback && o.cast_from_zone is None
    &&& o.instance_oracle_text is None && o.instance_continuous_effects is None
    &&& o.card_state@.len() == 0 && o.counters@.len() == 0 && o.regeneration_shields == 0
    &&& !o.is_transformed && !o.state_trigger_on_stack && o.x_value is None && o.chosen_mode is None
    &&& o.abilities_activated_this_turn@.len() == 0
    &&& o.entering_copy_choice == crate::state::EnterAsCopyChoice::Unasked
    &&& o.token_face is None
}

/// The log grew by exactly one line, with this level and text.
pub open spec fn logged(before: Seq<LogEntry>, after: Seq<LogEntry>, level: LogLevel, text: Seq<char>) -> bool {
    &&& after.len() == before.len() + 1
    &&& after.drop_last() == before
    &&& after.last().level == level
    &&& after.last().message@ == text
}

/// The state changed only in the object at `i`.
pub open spec fn only_object_changed(before: GameState, after: GameState, i: int) -> bool {
    &&& 0 <= i < before.objects@.len()
    &&& after.objects@ == before.objects@.update(i, after.objects@[i])
    &&& after == (GameState { objects: after.objects, ..before })
    &&& after.objects@[i].id == before.objects@[i].id
}

/// The number of players who have not lost.
pub open spec fn count_alive(ps: Seq<PlayerState>) -> nat
    decreases ps.len(),
{
    if ps.len() == 0 {
        0
    } else {
        count_alive(ps.drop_last()) + if ps.last().lost { 0nat } else { 1nat }
    }
}

/// The position of the first counter entry of this kind.
pub open spec fn counter_index(c: Seq<(CounterType, u32)>, ct: CounterType) -> Option<int>
    decreases c.len(),
{
    if c.len() == 0 {
        None
    } else {
        match counter_index(c.drop_last(), ct) {
            Some(k) => Some(k),
            None => if c.last().0 == ct { Some(c.len() - 1) } else { None },
        }
    }
}

/// How many counters of this kind the entries record.
pub open spec fn spec_counter(c: Seq<(CounterType, u32)>, ct: CounterType) -> nat {
    match counter_index(c, ct) {
        Some(k) => c[k].1 as nat,
        None => 0,
    }
}

/// The value recorded for a card-state key, if any (the first entry).
pub open spec fn card_state_lookup(s: Seq<(String, ObjectId)>, key: Seq<char>) -> Option<ObjectId>
    decreases s.len(),
{
    if s.len() == 0 {
        None
    } else {
        match card_state_lookup(s.drop_last(), key) {
            Some(v) => Some(v),
            None => if s.last().0@ == key { Some(s.last().1) } else { None },
        }
    }
}

/// The log line a life change writes.
pub open spec fn life_line(player: PlayerId, delta: int, new_life: int) -> Seq<char> {
    "p"@ + spec_decimal(player.0 as nat) + " "@ + (if delta > 0 { "gained"@ } else { "lost"@ }) + " "@
        + spec_decimal((if delta < 0 { -delta } else { delta }) as nat) + " life ("@
        + spec_signed_decimal(new_life) + ")"@
}

/// What `obj_name` says: the object's name and id, "?" for no object.
pub open spec fn spec_obj_name(state: &GameState, id: ObjectId) -> Seq<char> {
    let name = match state.spec_obj(id) {
        Some(o) => o.name@,
        None => "?"@,
    };
    name + " (#"@ + spec_decimal(id.0 as nat) + ")"@
}

fn counter_position(c: &Vec<(CounterType, u32)>, ct: CounterType) -> (r: Option<usize>)
    ensures
        match r {
            Some(k) => counter_index(c@, ct) == Some(k as int) && k < c@.len() && c@[k as int].0 == ct,
            None => counter_index(c@, ct) is None,
        },
{
    let mut i: usize = 0;
    while i < c.len()
        invariant
            i <= c@.len(),
            counter_index(c@.take(i as int), ct) is None,
        decreases c@.len() - i,
    {
        proof {
            assert(c@.take(i + 1).drop_last() =~= c@.take(i as int));
        }
        if c[i].0 == ct {
            proof {
                lemma_counter_index_prefix(c@, ct, i + 1);
            }
            return Some(i);
        }
        i = i + 1;
    }
    proof {
        assert(c@.take(i as int) =~= c@);
    }
    None
}

/// The first match in a prefix that has one is the first match overall.
proof fn lemma_counter_index_prefix(c: Seq<(CounterType, u32)>, ct: CounterType, n: int)
    requires
        0 <= n <= c.len(),
        counter_index(c.take(n), ct) is Some,
    ensures
        counter_index(c, ct) == counter_index(c.take(n), ct),
    decreases c.len() - n,
{
    if n < c.len() {
        assert(c.take(n + 1).drop_last() =~= c.take(n));
        lemma_counter_index_prefix(c, ct, n + 1);
    } else {
        assert(c.take(n) =~= c);
    }
}

fn card_state_get(s: &Vec<(String, ObjectId)>, key: &str) -> (r: Option<ObjectId>)
    ensures
        r == card_state_lookup(s@, key@),
{
    let mut i: usize = 0;
    while i < s.len()
        invariant
            i <= s@.len(),
            card_state_lookup(s@.take(i as int), key@) is None,
        decreases s@.len() - i,
    {
        proof {
            assert(s@.take(i + 1).drop_last() =~= s@.take(i as int));
        }
        if str_eq(s[i].0.as_str(), key) {
            proof {
                lemma_card_state_prefix(s@, key@, i + 1);
            }
            return Some(s[i].1);
        }
        i = i + 1;
    }
    proof {
        assert(s@.take(i as int) =~= s@);
    }
    None
}

proof fn lemma_card_state_prefix(s: Seq<(String, ObjectId)>, key: Seq<char>, n: int)
    requires
        0 <= n <= s.len(),
        card_state_lookup(s.take(n), key) is Some,
    ensures
        card_state_lookup(s, key) == card_state_lookup(s.take(n), key),
    decreases s.len() - n,
{
    if n < s.len() {
        assert(s.take(n + 1).drop_last() =~= s.take(n));
        lemma_card_state_prefix(s, key, n + 1);
    } else {
        assert(s.take(n) =~= s);
    }
}

fn push_log(log: &mut Vec<LogEntry>, level: LogLevel, message: String)
    ensures
        logged(old(log)@, final(log)@, level, message@),
{
    log.push(LogEntry { level, message });
    assert(final(log)@.drop_last() =~= old(log)@);
}

impl GameState {
    /// A new game for `num_players` players, at the first turn's untap step,
    /// with no objects and the default seed.
    pub fn new(num_players: u8) -> (s: GameState)
        ensures
            s.wf(),
            s.objects@.len() == 0,
            s.next_object_id == 1,
            s.rng_state == crate::state::spec_default_rng_seed(),
            s.players@.len() == num_players,
            forall|i: int| 0 <= i < num_players ==> #[trigger] s.players@[i].is_fresh(PlayerId(i as u8)),
            s.turn_number == 1,
            s.active_player == PlayerId(0),
            s.priority_player is None,
            s.step == Step::Untap,
            s.stack@.len() == 0,
            s.combat is None,
            s.end_of_combat_exiles@.len() == 0,
            s.awaiting_action is None,
            !s.combat_damage_step_pending,
            s.resolving_spell is None,
            s.result is None,
            s.consecutive_passes == 0,
            s.is_first_turn,
            s.events@.len() == 0,
            s.game_log@.len() == 0,
            s.until_end_of_turn@.len() == 0,
            s.control_effects@.len() == 0,
            !s.creature_died_this_turn,
            s.day_night is None,
            s.pending_ability_effect is None,
            s.pending_spell_cast is None,
            s.pending_triggers@.len() == 0,
            s.pending_entry_choices@.len() == 0,
            s.pending_entry_controllers@.len() == 0,
            s.next_effect_timestamp == 0,
            s.set_pt_effects@.len() == 0,
            s.book.resolving_ability_activator is None && s.book.resolving_trigger_from_back_face is None,
            s.book.num_spells_cast_this_turn@.len() == 0 && s.book.num_spells_cast_last_turn@.len() == 0,
            s.book.last_activated_x_value is None && s.book.last_activated_sacrifice is None,
            s.book.last_activated_sacrifice_toughness is None,
            s.book.trigger_event_index == 0 && s.book.submit_seq == 0 && !s.book.observe_every_submit,
            s.book.pending_trigger_pushes_ap@.len() == 0 && s.book.pending_trigger_pushes_nap@.len() == 0,
            s.book.pending_mulligan_bottoms@.len() == 0,
            s.book.mulligan_round_position == 0 && !s.book.mulligan_round_mulled && !s.book.cleanup_repeat,
    {
        let mut players: Vec<PlayerState> = Vec::new();
        let mut i: u8 = 0;
        while i < num_players
            invariant
                i <= num_players,
                players@.len() == i,
                forall|k: int| 0 <= k < i ==> #[trigger] players@[k].is_fresh(PlayerId(k as u8)),
            decreases num_players - i,
        {
            players.push(PlayerState::new(PlayerId(i)));
            i = i + 1;
        }
        GameState {
            objects: Vec::new(),
            next_object_id: 1,
            rng_state: crate::state::default_rng_seed(),
            players,
            turn_number: 1,
            active_player: PlayerId(0),
            priority_player: None,
            step: Step::Untap,
            stack: Vec::new(),
            combat: None,
            end_of_combat_exiles: Vec::new(),
            awaiting_action: None,
            combat_damage_step_pending: false,
            resolving_spell: None,
            result: None,
            consecutive_passes: 0,
            is_first_turn: true,
            events: Vec::new(),
            game_log: Vec::new(),
            until_end_of_turn: Vec::new(),
            control_effects: Vec::new(),
            creature_died_this_turn: false,
            day_night: None,
            pending_ability_effect: None,
            pending_spell_cast: None,
            pending_triggers: Vec::new(),
            pending_entry_choices: Vec::new(),
            pending_entry_controllers: Vec::new(),
            next_effect_timestamp: 0,
            set_pt_effects: Vec::new(),
            book: Bookkeeping {
                resolving_ability_activator: None,
                resolving_trigger_from_back_face: None,
                num_spells_cast_this_turn: Vec::new(),
                num_spells_cast_last_turn: Vec::new(),
                last_activated_x_value: None,
                last_activated_sacrifice: None,
                last_activated_sacrifice_toughness: None,
                trigger_event_index: 0,
                submit_seq: 0,
                observe_every_submit: false,
                pending_trigger_pushes_ap: Vec::new(),
                pending_trigger_pushes_nap: Vec::new(),
                pending_mulligan_bottoms: Vec::new(),
                mulligan_round_position: 0,
                mulligan_round_mulled: false,
                cleanup_repeat: false,
            },
        }
    }

    /// Allocate a fresh object id.
    pub fn next_id(&mut self) -> (id: ObjectId)
        requires
            old(self).next_object_id < u64::MAX,
        ensures
            id.0 == old(self).next_object_id,
            *final(self) == (GameState { next_object_id: (old(self).next_object_id + 1) as u64, ..*old(self) }),
    {
        let id = ObjectId(self.next_object_id);
        self.next_object_id = self.next_object_id + 1;
        id
    }

    /// Create a new object with a fresh id and add it to the game.
    pub fn create_object(
        &mut self,
        card_id: CardId,
        owner: PlayerId,
        zone: Zone,
        power: Option<i32>,
        toughness: Option<i32>,
    ) -> (id: ObjectId)
        requires
            old(self).wf(),
            old(self).next_object_id < u64::MAX,
        ensures
            final(self).wf(),
            id.0 == old(self).next_object_id,
            old(self).spec_obj(id) is None,
            final(self).objects@.len() == old(self).objects@.len() + 1,
            final(self).objects@.drop_last() == old(self).objects@,
            is_fresh_object(final(self).objects@.last(), id, card_id, owner, zone, power, toughness),
            final(self).spec_obj(id) == Some(final(self).objects@.last()),
            *final(self) == (GameState {
                objects: final(self).objects,
                next_object_id: (old(self).next_object_id + 1) as u64,
                ..*old(self)
            }),
    {
        let ghost before = self.objects@;
        let id = self.next_id();
        let obj = GameObject {
            id,
            card_id,
            name: String::new(),
            owner,
            controller: owner,
            base_controller: owner,
            zone,
            tapped: false,
            summoning_sick: zone == Zone::Battlefield,
            last_controller: None,
            attacked_on_turn: None,
            damage_marked: 0,
            damaged_by: Vec::new(),
            dealt_deathtouch_damage: false,
            power,
            toughness,
            colors: Vec::new(),
            keywords: Vec::new(),
            card_types: Vec::new(),
            subtypes: Vec::new(),
            targets: Vec::new(),
            attached_to: None,
            attached_to_player: None,
            last_attached_to_player: None,
            zone_change_count: 0,
            copy_grantor: None,
            is_token: false,
            is_legendary: false,
            cast_with_flashback: false,
            cast_from_zone: None,
            instance_oracle_text: None,
            instance_continuous_effects: None,
            card_state: Vec::new(),
            counters: Vec::new(),
            regeneration_shields: 0,
            is_transformed: false,
            state_trigger_on_stack: false,
            x_value: None,
            chosen_mode: None,
            abilities_activated_this_turn: Vec::new(),
            entering_copy_choice: crate::state::EnterAsCopyChoice::Unasked,
            token_face: None,
        };
        self.objects.push(obj);
        proof {
            assert(self.objects@.drop_last() =~= before);
            lemma_find_from(before, id, 0);
            lemma_find_from(self.objects@, id, 0);
            let n = before.len() as int;
            assert forall|m: int| 0 <= m < n implies self.objects@[m].id != id by {
                assert(self.objects@[m] == before[m]);
            }
            match find_from(self.objects@, id, 0) {
                Some(j) => {
                    if j < n {
                        assert(self.objects@[j] == before[j]);
                    }
                },
                None => {
                    assert(self.objects@[n].id == id);
                },
            }
        }
        id
    }

    /// The player with this id.
    pub fn get_player(&self, id: PlayerId) -> (p: &PlayerState)
        requires
            (id.0 as int) < self.players@.len(),
        ensures
            *p == self.players@[id.0 as int],
    {
        &self.players[id.0 as usize]
    }

    /// The player with this id, to change in place.
    pub fn get_player_mut(&mut self, id: PlayerId) -> (p: &mut PlayerState)
        requires
            (id.0 as int) < old(self).players@.len(),
        ensures
            *p == old(self).players@[id.0 as int],
            final(self).players@ == old(self).players@.update(id.0 as int, *final(p)),
            *final(self) == (GameState { players: final(self).players, ..*old(self) }),
    {
        &mut self.players[id.0 as usize]
    }

    /// Add a log line.
    pub fn log(&mut self, level: LogLevel, msg: String)
        ensures
            logged(old(self).game_log@, final(self).game_log@, level, msg@),
            *final(self) == (GameState { game_log: final(self).game_log, ..*old(self) }),
    {
        push_log(&mut self.game_log, level, msg);
    }

    /// "Name (#id)", for log lines.
    pub fn obj_name(&self, id: ObjectId) -> (s: String)
        ensures
            s@ == spec_obj_name(self, id),
    {
        proof {
            reveal_strlit("?");
            reveal_strlit(" (#");
            reveal_strlit(")");
        }
        let mut s = match self.get_object(id) {
            Some(o) => o.name.clone(),
            None => String::from_str("?"),
        };
        s.append(" (#");
        let n = decimal(id.0);
        s.append(n.as_str());
        s.append(")");
        s
    }

    /// Whether the game has ended.
    pub fn is_game_over(&self) -> (b: bool)
        ensures
            b == self.result is Some,
    {
        self.result.is_some()
    }

    /// How many players have not lost.
    pub fn alive_player_count(&self) -> (n: usize)
        ensures
            n == count_alive(self.players@),
    {
        let mut n: usize = 0;
        let mut i: usize = 0;
        while i < self.players.len()
            invariant
                i <= self.players@.len(),
                n == count_alive(self.players@.take(i as int)),
                n <= i,
            decreases self.players@.len() - i,
        {
            proof {
                assert(self.players@.take(i + 1).drop_last() =~= self.players@.take(i as int));
            }
            if !self.players[i].lost {
                n = n + 1;
            }
            i = i + 1;
        }
        proof {
            assert(self.players@.take(i as int) =~= self.players@);
        }
        n
    }

    /// The player after `player` in turn order.
    pub fn next_player(&self, player: PlayerId) -> (p: PlayerId)
        requires
            self.players@.len() > 0,
            player.0 < 255,
        ensures
            p.0 == (player.0 + 1) % (if self.players@.len() < 255 { self.players@.len() as int } else { 255 }),
    {
        let n: u8 = if self.players.len() < 255 { self.players.len() as u8 } else { 255u8 };
        PlayerId((player.0 + 1) % n)
    }

    /// The opponent in a two-player game: the next player.
    pub fn opponent(&self, player: PlayerId) -> (p: PlayerId)
        requires
            self.players@.len() > 0,
            player.0 < 255,
        ensures
            p.0 == (player.0 + 1) % (if self.players@.len() < 255 { self.players@.len() as int } else { 255 }),
    {
        self.next_player(player)
    }

    /// Tap a permanent (CR 701.21a) and announce it. Only an untapped
    /// permanent on the battlefield can become tapped; anything else is
    /// left alone, without an event.
    pub fn tap(&mut self, id: ObjectId)
        ensures
            tap_result(*old(self), *final(self), id),
    {
        match self.find_index(id) {
            Some(i) => {
                if self.objects[i].zone == Zone::Battlefield && !self.objects[i].tapped {
                    let ghost before = *self;
                    self.objects[i].tapped = true;
                    self.events.push(GameEvent::Tapped { object: id });
                    proof {
                        assert(self.objects@ =~= before.objects@.update(i as int, GameObject { tapped: true, ..before.objects@[i as int] }));
                        assert(self.events@ =~= before.events@.push(GameEvent::Tapped { object: id }));
                    }
                }
            },
            None => {},
        }
    }

    /// Untap a permanent (CR 701.20a) and announce it; an untapped one is
    /// left alone, without an event.
    pub fn untap(&mut self, id: ObjectId)
        ensures
            untap_result(*old(self), *final(self), id),
    {
        match self.find_index(id) {
            Some(i) => {
                if self.objects[i].tapped {
                    let ghost before = *self;
                    self.objects[i].tapped = false;
                    self.events.push(GameEvent::Untapped { object: id });
                    proof {
                        assert(self.objects@ =~= before.objects@.update(i as int, GameObject { tapped: false, ..before.objects@[i as int] }));
                        assert(self.events@ =~= before.events@.push(GameEvent::Untapped { object: id }));
                    }
                }
            },
            None => {},
        }
    }

    /// A permanent arrives tapped: nothing tapped it, so no event.
    pub fn arrives_tapped(&mut self, id: ObjectId)
        ensures
            match old(self).spec_index(id) {
                Some(i) => final(self).objects@ == old(self).objects@.update(i, GameObject { tapped: true, ..old(self).objects@[i] })
                    && *final(self) == (GameState { objects: final(self).objects, ..*old(self) }),
                None => *final(self) == *old(self),
            },
    {
        match self.find_index(id) {
            Some(i) => {
                self.objects[i].tapped = true;
            },
            None => {},
        }
    }
}


/// The counter entries after adding `n` of kind `ct`.
pub open spec fn spec_add_counters(c: Seq<(CounterType, u32)>, ct: CounterType, n: u32) -> Seq<(CounterType, u32)> {
    match counter_index(c, ct) {
        Some(k) => c.update(k, (ct, (c[k].1 + n) as u32)),
        None => c.push((ct, n)),
    }
}

/// The counter entries after removing up to `n` of kind `ct`; an entry
/// that reaches zero goes.
pub open spec fn spec_remove_counters(c: Seq<(CounterType, u32)>, ct: CounterType, n: u32) -> Seq<(CounterType, u32)> {
    match counter_index(c, ct) {
        Some(k) => if c[k].1 <= n { c.remove(k) } else { c.update(k, (ct, (c[k].1 - n) as u32)) },
        None => c,
    }
}

fn add_counter_entry(c: &mut Vec<(CounterType, u32)>, ct: CounterType, n: u32)
    requires
        spec_counter(old(c)@, ct) + n <= u32::MAX,
    ensures
        final(c)@ == spec_add_counters(old(c)@, ct, n),
{
    match counter_position(c, ct) {
        Some(k) => {
            let cur = c[k].1;
            c.set(k, (ct, cur + n));
        },
        None => {
            c.push((ct, n));
        },
    }
}

fn remove_counter_entry(c: &mut Vec<(CounterType, u32)>, ct: CounterType, n: u32)
    ensures
        final(c)@ == spec_remove_counters(old(c)@, ct, n),
{
    match counter_position(c, ct) {
        Some(k) => {
            let cur = c[k].1;
            if cur <= n {
                c.remove(k);
            } else {
                c.set(k, (ct, cur - n));
            }
        },
        None => {},
    }
}

/// The combat after `id` is taken out of it (CR 506.4): out of the
/// attackers, the blocked attackers, the first strikers, the planeswalker
/// attacks, and every blocker list.
pub open spec fn combat_without(before: CombatState, after: CombatState, id: ObjectId) -> bool {
    let ba = drop_key(before.blocker_assignments@, id);
    &&& after.attackers@ == drop_key(before.attackers@, id)
    &&& after.planeswalker_defenders@ == drop_key(before.planeswalker_defenders@, id)
    &&& after.blocked_attackers@ == drop_id(before.blocked_attackers@, id)
    &&& after.dealt_first_strike@ == drop_id(before.dealt_first_strike@, id)
    &&& after.blocker_assignments@.len() == ba.len()
    &&& forall|k: int| 0 <= k < ba.len() ==> #[trigger] after.blocker_assignments@[k].0 == ba[k].0
        && after.blocker_assignments@[k].1@ == drop_id(ba[k].1@, id)
    &&& after.damage_assignment_order == before.damage_assignment_order
    &&& after.any_attackers_declared == before.any_attackers_declared
}

fn take_out_of_combat(c: &mut CombatState, id: ObjectId)
    ensures
        combat_without(*old(c), *final(c), id),
{
    remove_keyed(&mut c.attackers, id);
    remove_keyed(&mut c.blocker_assignments, id);
    remove_id(&mut c.blocked_attackers, id);
    remove_keyed(&mut c.planeswalker_defenders, id);
    remove_id(&mut c.dealt_first_strike, id);
    let ghost ba = c.blocker_assignments@;
    let ghost c1 = *c;
    let mut k: usize = 0;
    while k < c.blocker_assignments.len()
        invariant
            k <= c.blocker_assignments@.len(),
            *c == (CombatState { blocker_assignments: c.blocker_assignments, ..c1 }),
            c.blocker_assignments@.len() == ba.len(),
            forall|j: int| 0 <= j < ba.len() ==> #[trigger] c.blocker_assignments@[j].0 == ba[j].0,
            forall|j: int| 0 <= j < k ==> #[trigger] c.blocker_assignments@[j].1@ == drop_id(ba[j].1@, id),
            forall|j: int| k <= j < ba.len() ==> #[trigger] c.blocker_assignments@[j].1 == ba[j].1,
        decreases ba.len() - k,
    {
        remove_id(&mut c.blocker_assignments[k].1, id);
        k = k + 1;
    }
}

impl GameState {
    /// Put counters on a permanent. A permanent that has left the
    /// battlefield is a new object (CR 400.7), so counters aimed at an
    /// object anywhere else land nowhere (CR 121.1).
    pub fn add_counters(&mut self, id: ObjectId, counter_type: CounterType, count: u32)
        requires
            match old(self).spec_obj(id) {
                Some(o) => o.zone == Zone::Battlefield ==> spec_counter(o.counters@, counter_type) + count <= u32::MAX,
                None => true,
            },
        ensures
            match old(self).spec_index(id) {
                Some(i) => if old(self).objects@[i].zone == Zone::Battlefield {
                    &&& only_object_changed(*old(self), *final(self), i)
                    &&& final(self).objects@[i] == (GameObject { counters: final(self).objects@[i].counters, ..old(self).objects@[i] })
                    &&& final(self).objects@[i].counters@ == spec_add_counters(old(self).objects@[i].counters@, counter_type, count)
                } else {
                    *final(self) == *old(self)
                },
                None => *final(self) == *old(self),
            },
    {
        match self.find_index(id) {
            Some(i) => {
                if self.objects[i].zone == Zone::Battlefield {
                    add_counter_entry(&mut self.objects[i].counters, counter_type, count);
                }
            },
            None => {},
        }
    }

    /// Remove up to `count` counters of a kind. Unlike adding, this works in
    /// any zone: a cost can remove counters from a permanent being
    /// sacrificed in the same cost (CR 601.2h).
    pub fn remove_counters(&mut self, id: ObjectId, counter_type: CounterType, count: u32)
        ensures
            match old(self).spec_index(id) {
                Some(i) => {
                    &&& only_object_changed(*old(self), *final(self), i)
                    &&& final(self).objects@[i] == (GameObject { counters: final(self).objects@[i].counters, ..old(self).objects@[i] })
                    &&& final(self).objects@[i].counters@ == spec_remove_counters(old(self).objects@[i].counters@, counter_type, count)
                },
                None => *final(self) == *old(self),
            },
    {
        match self.find_index(id) {
            Some(i) => {
                remove_counter_entry(&mut self.objects[i].counters, counter_type, count);
            },
            None => {},
        }
    }

    /// How many counters of a kind are on an object (0 for no object).
    pub fn get_counter_count(&self, id: ObjectId, counter_type: CounterType) -> (n: u32)
        ensures
            n == (match self.spec_obj(id) {
                Some(o) => spec_counter(o.counters@, counter_type),
                None => 0,
            }),
    {
        match self.get_object(id) {
            Some(o) => match counter_position(&o.counters, counter_type) {
                Some(k) => o.counters[k].1,
                None => 0,
            },
            None => 0,
        }
    }

    /// Give a permanent a regeneration shield (CR 701.15); like counters,
    /// only a permanent on the battlefield can have one.
    pub fn add_regeneration_shield(&mut self, id: ObjectId)
        requires
            match old(self).spec_obj(id) {
                Some(o) => o.zone == Zone::Battlefield ==> o.regeneration_shields < u32::MAX,
                None => true,
            },
        ensures
            match old(self).spec_index(id) {
                Some(i) => if old(self).objects@[i].zone == Zone::Battlefield {
                    &&& final(self).objects@ == old(self).objects@.update(i, GameObject {
                        regeneration_shields: (old(self).objects@[i].regeneration_shields + 1) as u32,
                        ..old(self).objects@[i]
                    })
                    &&& *final(self) == (GameState { objects: final(self).objects, ..*old(self) })
                } else {
                    *final(self) == *old(self)
                },
                None => *final(self) == *old(self),
            },
    {
        match self.find_index(id) {
            Some(i) => {
                if self.objects[i].zone == Zone::Battlefield {
                    let n = self.objects[i].regeneration_shields;
                    self.objects[i].regeneration_shields = n + 1;
                }
            },
            None => {},
        }
    }

    /// Change a player's life total by `delta` and announce it, without a
    /// log line.
    pub fn change_life_quiet(&mut self, player: PlayerId, delta: i32)
        requires
            (player.0 as int) < old(self).players@.len(),
            i32::MIN <= old(self).players@[player.0 as int].life + delta <= i32::MAX,
        ensures
            delta == 0 ==> *final(self) == *old(self),
            delta != 0 ==> {
                let p = old(self).players@[player.0 as int];
                let new_life = (p.life + delta) as i32;
                &&& final(self).players@ == old(self).players@.update(player.0 as int, PlayerState { life: new_life, ..p })
                &&& final(self).events@ == old(self).events@.push(GameEvent::LifeChanged { player, old: p.life, new_life })
                &&& *final(self) == (GameState { players: final(self).players, events: final(self).events, ..*old(self) })
            },
    {
        if delta == 0 {
            return;
        }
        let old_life = self.players[player.0 as usize].life;
        let new_life = old_life + delta;
        self.players[player.0 as usize].life = new_life;
        self.events.push(GameEvent::LifeChanged { player, old: old_life, new_life });
    }

    /// Change a player's life total by `delta` (negative loses), announce
    /// it, and log it with the new total.
    pub fn change_life(&mut self, player: PlayerId, delta: i32)
        requires
            (player.0 as int) < old(self).players@.len(),
            i32::MIN <= old(self).players@[player.0 as int].life + delta <= i32::MAX,
            delta > i32::MIN,
        ensures
            life_result(*old(self), *final(self), player, delta as int),
    {
        let ghost st = *self;
        self.change_life_quiet(player, delta);
        if delta == 0 {
            return;
        }
        proof {
            reveal_strlit("p");
            reveal_strlit(" ");
            reveal_strlit("gained");
            reveal_strlit("lost");
            reveal_strlit(" life (");
            reveal_strlit(")");
        }
        let new_life = self.players[player.0 as usize].life;
        let mut line = String::from_str("p");
        let who = decimal(player.0 as u64);
        line.append(who.as_str());
        line.append(" ");
        line.append(if delta > 0 { "gained" } else { "lost" });
        line.append(" ");
        let magnitude: u64 = if delta < 0 { (-(delta as i64)) as u64 } else { delta as u64 };
        let amount = decimal(magnitude);
        line.append(amount.as_str());
        line.append(" life (");
        let total = signed_decimal(new_life as i64);
        line.append(total.as_str());
        line.append(")");
        let ghost mid = *self;
        self.log(LogLevel::Info, line);
        proof {
            let p = st.players@[player.0 as int];
            let nl = (p.life + delta) as i32;
            assert(self.players@ =~= st.players@.update(player.0 as int, PlayerState { life: nl, ..p }));
            assert(self.events@ =~= st.events@.push(GameEvent::LifeChanged { player, old: p.life, new_life: nl }));
        }
    }

    /// Gain life (CR 118.3).
    pub fn gain_life(&mut self, player: PlayerId, amount: i32)
        requires
            (player.0 as int) < old(self).players@.len(),
            i32::MIN <= old(self).players@[player.0 as int].life + amount <= i32::MAX,
            amount > i32::MIN,
        ensures
            life_result(*old(self), *final(self), player, amount as int),
    {
        self.change_life(player, amount);
    }

    /// Lose life: not damage, so nothing prevents it.
    pub fn lose_life(&mut self, player: PlayerId, amount: i32)
        requires
            (player.0 as int) < old(self).players@.len(),
            i32::MIN <= old(self).players@[player.0 as int].life - amount <= i32::MAX,
            amount > i32::MIN,
        ensures
            life_result(*old(self), *final(self), player, -amount),
    {
        self.change_life(player, -amount);
    }

    /// Add mana to a player's pool and announce it (CR 106.4).
    pub fn add_mana(&mut self, player: PlayerId, mana_type: ManaType, amount: u32)
        requires
            (player.0 as int) < old(self).players@.len(),
            old(self).players@[player.0 as int].mana_pool.amount(mana_type) + amount <= u32::MAX,
        ensures
            ({
                let p = old(self).players@[player.0 as int];
                &&& final(self).players@ == old(self).players@.update(player.0 as int, PlayerState {
                    mana_pool: p.mana_pool.with(mana_type, (p.mana_pool.amount(mana_type) + amount) as u32),
                    ..p
                })
                &&& final(self).events@ == old(self).events@.push(GameEvent::ManaAdded { player, mana_type, amount })
                &&& *final(self) == (GameState { players: final(self).players, events: final(self).events, ..*old(self) })
            }),
    {
        self.players[player.0 as usize].mana_pool.add(mana_type, amount);
        self.events.push(GameEvent::ManaAdded { player, mana_type, amount });
    }

    /// End the game (CR 104.2), announcing it. A game already decided stays
    /// as it was.
    pub fn end_game(&mut self, result: GameResult)
        ensures
            old(self).result is Some ==> *final(self) == *old(self),
            old(self).result is None ==> {
                &&& final(self).events@ == old(self).events@.push(GameEvent::GameEnded { result })
                &&& *final(self) == (GameState { events: final(self).events, result: Some(result), ..*old(self) })
            },
    {
        if self.result.is_some() {
            return;
        }
        self.events.push(GameEvent::GameEnded { result });
        self.result = Some(result);
    }

    /// A player loses the game (CR 104.3): record why, log it, announce it.
    /// A player who has already lost stays as they were.
    pub fn player_loses(&mut self, player: PlayerId, reason: LossReason)
        requires
            (player.0 as int) < old(self).players@.len(),
        ensures
            old(self).players@[player.0 as int].lost ==> *final(self) == *old(self),
            !old(self).players@[player.0 as int].lost ==> {
                let p = old(self).players@[player.0 as int];
                &&& final(self).players@ == old(self).players@.update(player.0 as int, PlayerState {
                    lost: true,
                    loss_reason: Some(reason),
                    ..p
                })
                &&& logged(old(self).game_log@, final(self).game_log@, LogLevel::Milestone,
                    "p"@ + spec_decimal(player.0 as nat) + " "@ + reason.spec_describe())
                &&& final(self).events@ == old(self).events@.push(GameEvent::PlayerLost { player, reason })
                &&& *final(self) == (GameState {
                    players: final(self).players,
                    events: final(self).events,
                    game_log: final(self).game_log,
                    ..*old(self)
                })
            },
    {
        if self.players[player.0 as usize].lost {
            return;
        }
        self.players[player.0 as usize].lost = true;
        self.players[player.0 as usize].loss_reason = Some(reason);
        proof {
            reveal_strlit("p");
            reveal_strlit(" ");
        }
        let mut line = String::from_str("p");
        let who = decimal(player.0 as u64);
        line.append(who.as_str());
        line.append(" ");
        line.append(reason.describe());
        self.log(LogLevel::Milestone, line);
        self.events.push(GameEvent::PlayerLost { player, reason });
    }

    /// The player a Curse is attached to, or was immediately before it
    /// left the battlefield (CR 608.2).
    pub fn attached_player(&self, id: ObjectId) -> (r: Option<PlayerId>)
        ensures
            r == (match self.spec_obj(id) {
                Some(o) => if o.attached_to_player is Some { o.attached_to_player } else { o.last_attached_to_player },
                None => None,
            }),
    {
        match self.get_object(id) {
            Some(o) => if o.attached_to_player.is_some() { o.attached_to_player } else { o.last_attached_to_player },
            None => None,
        }
    }

    /// The creature an Aura or Equipment is attached to, or was immediately
    /// before it left the battlefield (CR 608.2g).
    pub fn attached_creature(&self, id: ObjectId) -> (r: Option<ObjectId>)
        ensures
            r == (match self.spec_obj(id) {
                Some(o) => if o.attached_to is Some { o.attached_to } else { card_state_lookup(o.card_state@, "last_attached_to"@) },
                None => None,
            }),
    {
        match self.get_object(id) {
            Some(o) => if o.attached_to.is_some() {
                o.attached_to
            } else {
                card_state_get(&o.card_state, "last_attached_to")
            },
            None => None,
        }
    }

    /// Who controls this object, or, once it has left the battlefield, who
    /// controlled it last (CR 608.2g).
    pub fn last_known_controller(&self, id: ObjectId) -> (p: PlayerId)
        ensures
            p == (match self.spec_obj(id) {
                Some(o) => if o.zone == Zone::Battlefield {
                    o.controller
                } else {
                    match o.last_controller {
                        Some(c) => c,
                        None => o.controller,
                    }
                },
                None => PlayerId(0),
            }),
    {
        match self.get_object(id) {
            Some(o) => if o.zone == Zone::Battlefield {
                o.controller
            } else {
                match o.last_controller {
                    Some(c) => c,
                    None => o.controller,
                }
            },
            None => PlayerId(0),
        }
    }

    /// Whether this permanent was declared as an attacker this turn.
    pub fn attacked_this_turn(&self, id: ObjectId) -> (b: bool)
        ensures
            b == (self.spec_obj(id) matches Some(o) && o.attacked_on_turn == Some(self.turn_number)),
    {
        match self.get_object(id) {
            Some(o) => match o.attacked_on_turn {
                Some(t) => t == self.turn_number,
                None => false,
            },
            None => false,
        }
    }

    /// Whether the object is a card (CR 109.1): a token is not one.
    pub fn is_card(&self, id: ObjectId) -> (b: bool)
        ensures
            b == (self.spec_obj(id) matches Some(o) && !o.is_token),
    {
        match self.get_object(id) {
            Some(o) => !o.is_token,
            None => false,
        }
    }

    /// A token's printed half.
    pub fn token_face_of(&self, id: ObjectId) -> (r: Option<&TokenFace>)
        ensures
            match r {
                Some(f) => self.spec_obj(id) matches Some(o) && o.token_face == Some(*f),
                None => !(self.spec_obj(id) matches Some(o) && o.token_face is Some),
            },
    {
        match self.get_object(id) {
            Some(o) => o.token_face.as_ref(),
            None => None,
        }
    }

    /// Take a creature out of the current combat, if there is one.
    pub fn remove_from_combat(&mut self, id: ObjectId)
        ensures
            match old(self).combat {
                Some(c) => final(self).combat matches Some(c2) && combat_without(c, c2, id)
                    && *final(self) == (GameState { combat: final(self).combat, ..*old(self) }),
                None => *final(self) == *old(self),
            },
    {
        match &mut self.combat {
            Some(c) => take_out_of_combat(c, id),
            None => {},
        }
    }

    /// Change control of a permanent (CR 800.4a). It becomes summoning sick
    /// for its new controller and leaves combat (CR 506.4d). Giving it to
    /// its controller changes nothing.
    pub fn change_control(&mut self, id: ObjectId, new_controller: PlayerId)
        ensures
            control_given(*old(self), *final(self), id, new_controller),
    {
        let ghost st = *self;
        match self.find_index(id) {
            Some(i) => {
                if self.objects[i].controller != new_controller {
                    self.objects[i].controller = new_controller;
                    self.objects[i].summoning_sick = true;
                    self.remove_from_combat(id);
                    proof {
                        assert(self.objects@ =~= st.objects@.update(i as int, GameObject {
                            controller: new_controller,
                            summoning_sick: true,
                            ..st.objects@[i as int]
                        }));
                    }
                }
            },
            None => {},
        }
    }
}

/// A permanent given to `c` (CR 800.4a): if `c` did not control it, it is
/// now `c`'s, summoning sick, and out of combat; otherwise nothing changed.
pub open spec fn control_given(before: GameState, after: GameState, id: ObjectId, c: PlayerId) -> bool {
    match before.spec_index(id) {
        Some(i) => if before.objects@[i].controller != c {
            &&& after.objects@ == before.objects@.update(i, GameObject {
                controller: c,
                summoning_sick: true,
                ..before.objects@[i]
            })
            &&& match before.combat {
                Some(cb) => after.combat matches Some(c2) && combat_without(cb, c2, id),
                None => after.combat is None,
            }
            &&& after == (GameState { objects: after.objects, combat: after.combat, ..before })
        } else {
            after == before
        },
        None => after == before,
    }
}

/// Tapping a permanent: an untapped one on the battlefield becomes tapped,
/// announced; anything else stays as it is.
pub open spec fn tap_result(a: GameState, b: GameState, id: ObjectId) -> bool {
    match a.spec_index(id) {
        Some(i) => if a.objects@[i].zone == Zone::Battlefield && !a.objects@[i].tapped {
            &&& b.objects@ == a.objects@.update(i, GameObject { tapped: true, ..a.objects@[i] })
            &&& b.events@ == a.events@.push(GameEvent::Tapped { object: id })
            &&& b == (GameState { objects: b.objects, events: b.events, ..a })
        } else {
            b == a
        },
        None => b == a,
    }
}

/// Untapping a permanent: a tapped one becomes untapped, announced.
pub open spec fn untap_result(a: GameState, b: GameState, id: ObjectId) -> bool {
    match a.spec_index(id) {
        Some(i) => if a.objects@[i].tapped {
            &&& b.objects@ == a.objects@.update(i, GameObject { tapped: false, ..a.objects@[i] })
            &&& b.events@ == a.events@.push(GameEvent::Untapped { object: id })
            &&& b == (GameState { objects: b.objects, events: b.events, ..a })
        } else {
            b == a
        },
        None => b == a,
    }
}

/// A player's life changed by `delta` (CR 119.3): the new total, an event
/// and a log line; a change of zero changes nothing.
pub open spec fn life_result(a: GameState, b: GameState, player: PlayerId, delta: int) -> bool {
    if delta == 0 {
        b == a
    } else {
        let p = a.players@[player.0 as int];
        let new_life = (p.life + delta) as i32;
        &&& b.players@ == a.players@.update(player.0 as int, PlayerState { life: new_life, ..p })
        &&& b.events@ == a.events@.push(GameEvent::LifeChanged { player, old: p.life, new_life })
        &&& logged(a.game_log@, b.game_log@, LogLevel::Info, life_line(player, delta, new_life as int))
        &&& b == (GameState { players: b.players, events: b.events, game_log: b.game_log, ..a })
    }
}

/// How many counters of a kind are on the object.
pub fn get_counter_of(o: &GameObject, ct: CounterType) -> (n: u32)
    ensures
        n == spec_counter(o.counters@, ct),
{
    match counter_position(&o.counters, ct) {
        Some(k) => o.counters[k].1,
        None => 0,
    }
}

/// Whether `o` is in `zone` and belongs to `player` there: controlled, on
/// the battlefield; owned, in every other zone (CR 400.3).
pub open spec fn in_players_zone(o: GameObject, zone: Zone, player: PlayerId) -> bool {
    o.zone == zone && match zone {
        Zone::Battlefield => o.controller == player,
        _ => o.owner == player,
    }
}

/// The objects in `zone`, in order.
pub open spec fn select_zone(objs: Seq<GameObject>, zone: Zone) -> Seq<GameObject>
    decreases objs.len(),
{
    if objs.len() == 0 {
        Seq::empty()
    } else {
        let prior = select_zone(objs.drop_last(), zone);
        if objs.last().zone == zone { prior.push(objs.last()) } else { prior }
    }
}

/// The objects in `player`'s part of `zone`, in order; with `skip`, only
/// those whose ids are not listed.
pub open spec fn select_players(objs: Seq<GameObject>, zone: Zone, player: PlayerId, skip: Seq<ObjectId>) -> Seq<GameObject>
    decreases objs.len(),
{
    if objs.len() == 0 {
        Seq::empty()
    } else {
        let prior = select_players(objs.drop_last(), zone, player, skip);
        let o = objs.last();
        if in_players_zone(o, zone, player) && !skip.contains(o.id) { prior.push(o) } else { prior }
    }
}

/// The graveyard's recorded pile, oldest first: each listed card once, at
/// its first place in the pile, if it is in the player's graveyard.
pub open spec fn pile_objects(st: GameState, pile: Seq<ObjectId>, player: PlayerId) -> Seq<GameObject>
    decreases pile.len(),
{
    if pile.len() == 0 {
        Seq::empty()
    } else {
        let prior = pile_objects(st, pile.drop_last(), player);
        let id = pile.last();
        if !pile.drop_last().contains(id) && (st.spec_obj(id) matches Some(o) && in_players_zone(o, Zone::Graveyard, player)) {
            prior.push(st.spec_obj(id).unwrap())
        } else {
            prior
        }
    }
}

/// What `objects_in_zone` lists: for a graveyard its pile in arrival order
/// (CR 404.2) and then anything not in the pile by id; elsewhere the
/// objects in id order.
pub open spec fn spec_objects_in_zone(st: GameState, zone: Zone, player: PlayerId) -> Seq<GameObject> {
    if zone == Zone::Graveyard {
        let pile = st.players@[player.0 as int].graveyard_order@;
        pile_objects(st, pile, player) + select_players(st.objects@, zone, player, pile)
    } else {
        select_players(st.objects@, zone, player, Seq::empty())
    }
}

/// The references' targets.
pub open spec fn derefs(v: Seq<&GameObject>) -> Seq<GameObject> {
    v.map_values(|r: &GameObject| *r)
}

impl GameState {
    /// Every object, in the order held: id order.
    pub fn objects_in_id_order(&self) -> (r: Vec<&GameObject>)
        ensures
            derefs(r@) == self.objects@,
    {
        let mut out: Vec<&GameObject> = Vec::new();
        let mut i: usize = 0;
        while i < self.objects.len()
            invariant
                i <= self.objects@.len(),
                out@.len() == i,
                forall|k: int| 0 <= k < i ==> *out@[k] == self.objects@[k],
            decreases self.objects@.len() - i,
        {
            out.push(&self.objects[i]);
            i = i + 1;
        }
        assert(derefs(out@) =~= self.objects@);
        out
    }

    /// Every object in a zone, whoever's, in id order.
    pub fn all_objects_in_zone(&self, zone: Zone) -> (r: Vec<&GameObject>)
        ensures
            derefs(r@) == select_zone(self.objects@, zone),
    {
        let mut out: Vec<&GameObject> = Vec::new();
        let mut i: usize = 0;
        while i < self.objects.len()
            invariant
                i <= self.objects@.len(),
                derefs(out@) == select_zone(self.objects@.take(i as int), zone),
            decreases self.objects@.len() - i,
        {
            proof { assert(self.objects@.take(i + 1).drop_last() =~= self.objects@.take(i as int)); }
            if self.objects[i].zone == zone {
                out.push(&self.objects[i]);
                proof { assert(derefs(out@) =~= derefs(out@).drop_last().push(self.objects@[i as int])); }
            }
            i = i + 1;
        }
        proof { assert(self.objects@.take(i as int) =~= self.objects@); }
        out
    }

    fn select_into<'a>(&'a self, out: &mut Vec<&'a GameObject>, zone: Zone, player: PlayerId, skip: &Vec<ObjectId>)
        ensures
            derefs(final(out)@) == derefs(old(out)@) + select_players(self.objects@, zone, player, skip@),
    {
        let ghost start = derefs(out@);
        let mut i: usize = 0;
        while i < self.objects.len()
            invariant
                i <= self.objects@.len(),
                derefs(out@) == start + select_players(self.objects@.take(i as int), zone, player, skip@),
            decreases self.objects@.len() - i,
        {
            proof { assert(self.objects@.take(i + 1).drop_last() =~= self.objects@.take(i as int)); }
            let o = &self.objects[i];
            let mine = o.zone == zone && match zone {
                Zone::Battlefield => o.controller == player,
                _ => o.owner == player,
            };
            if mine && !crate::util::contains_id(skip, o.id) {
                let ghost before = derefs(out@);
                out.push(o);
                proof { assert(derefs(out@) =~= before.push(*o)); }
            }
            i = i + 1;
        }
        proof { assert(self.objects@.take(i as int) =~= self.objects@); }
    }

    /// The objects in `player`'s part of a zone: controlled ones on the
    /// battlefield, owned ones in every other zone (CR 400.3). A
    /// graveyard lists its pile in arrival order (CR 404.2), then anything
    /// not in the pile by id; every other zone is in id order.
    pub fn objects_in_zone(&self, zone: Zone, player: PlayerId) -> (r: Vec<&GameObject>)
        requires
            zone == Zone::Graveyard ==> (player.0 as int) < self.players@.len(),
        ensures
            derefs(r@) == spec_objects_in_zone(*self, zone, player),
    {
        let mut out: Vec<&GameObject> = Vec::new();
        if zone == Zone::Graveyard {
            let pile = &self.players[player.0 as usize].graveyard_order;
            let mut k: usize = 0;
            while k < pile.len()
                invariant
                    k <= pile@.len(),
                    *pile == self.players@[player.0 as int].graveyard_order,
                    derefs(out@) == pile_objects(*self, pile@.take(k as int), player),
                decreases pile@.len() - k,
            {
                proof {
                    assert(pile@.take(k + 1).drop_last() =~= pile@.take(k as int));
                }
                let id = pile[k];
                let mut seen = false;
                let mut m: usize = 0;
                while m < k
                    invariant
                        m <= k < pile@.len(),
                        seen == pile@.take(m as int).contains(id),
                    decreases k - m,
                {
                    proof {
                        assert(pile@.take(m + 1) =~= pile@.take(m as int).push(pile@[m as int]));
                        crate::util::lemma_contains_push(pile@.take(m as int), pile@[m as int], id);
                    }
                    if pile[m] == id {
                        seen = true;
                    }
                    m = m + 1;
                }
                proof { assert(pile@.take(k + 1).drop_last() =~= pile@.take(k as int)); }
                if !seen {
                    match self.get_object(id) {
                        Some(o) => {
                            if o.zone == Zone::Graveyard && o.owner == player {
                                let ghost before = derefs(out@);
                                out.push(o);
                                proof { assert(derefs(out@) =~= before.push(*o)); }
                            }
                        },
                        None => {},
                    }
                }
                k = k + 1;
            }
            proof { assert(pile@.take(k as int) =~= pile@); }
            self.select_into(&mut out, zone, player, pile);
        } else {
            let none: Vec<ObjectId> = Vec::new();
            proof { assert(derefs(out@) =~= Seq::<GameObject>::empty()); }
            self.select_into(&mut out, zone, player, &none);
            proof { assert(none@ =~= Seq::<ObjectId>::empty()); }
        }
        out
    }
}
} // verus!
