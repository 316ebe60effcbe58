//! Tokens (CR 111): created on the battlefield, through the replacement
//! effects that change how many are made and how each enters.

use vstd::prelude::*;
use crate::cards::CardRegistry;
use crate::ids::{CardId, ObjectId, PlayerId};
use crate::events::GameEvent;
use crate::replacement::{apply, fold_tokens, ReplaceableEvent};
use crate::objects::spec_obj_name;
use crate::replacement::{
    candidates, fold_entering, keep_pass, own_card, pass_candidates, sp_for_entering, sp_pass,
    sp_replace_entering, without_object, EnteringView, Pass,
};
use crate::state::{EnterAsCopyChoice, GameObject, GameState, LogLevel, TokenFace};
use crate::text::{decimal, join, signed_decimal, spec_decimal, spec_join, spec_signed_decimal, views};
use crate::types::{CardType, Color, Keyword, Zone};
use crate::zones::{add_all, add_all_fits, entering_lines, entry_applied, log_grew, zone_frame};

verus! {

/// Candidates that are not the entering permanent leave it as it is.
proof fn lemma_fold_others(st: GameState, cs: Seq<(ObjectId, CardId)>, reg: CardRegistry, e: EnteringView, pass: Pass)
    requires
        forall|k: int| 0 <= k < cs.len() ==> (#[trigger] cs[k]).0 != e.object,
    ensures
        fold_entering(st, cs, reg, e, pass) == e,
    decreases cs.len(),
{
    if cs.len() > 0 {
        lemma_fold_others(st, cs.drop_last(), reg, e, pass);
        assert(cs.last().0 != e.object);
    }
}

/// A pass over two lists of candidates is a pass over the first, then
/// over the second.
proof fn lemma_fold_concat(st: GameState, a: Seq<(ObjectId, CardId)>, b: Seq<(ObjectId, CardId)>, reg: CardRegistry,
    e: EnteringView, pass: Pass)
    ensures
        fold_entering(st, a + b, reg, e, pass) == fold_entering(st, b, reg, fold_entering(st, a, reg, e, pass), pass),
    decreases b.len(),
{
    if b.len() == 0 {
        assert(a + b =~= a);
    } else {
        assert((a + b).drop_last() =~= a + b.drop_last());
        lemma_fold_concat(st, a, b.drop_last(), reg, e, pass);
    }
}

/// The candidates without the entering object's own entry hold none of it.
proof fn lemma_without_object(cs: Seq<(ObjectId, CardId)>, id: ObjectId)
    ensures
        forall|k: int| 0 <= k < without_object(cs, id).len() ==> (#[trigger] without_object(cs, id)[k]).0 != id,
    decreases cs.len(),
{
    if cs.len() > 0 {
        lemma_without_object(cs.drop_last(), id);
        let prior = without_object(cs.drop_last(), id);
        if cs.last().0 != id {
            let w = prior.push(cs.last());
            assert forall|k: int| 0 <= k < w.len() implies (#[trigger] w[k]).0 != id by {
                if k < prior.len() {
                    assert(w[k] == prior[k]);
                }
            }
        }
    }
}

/// A pass over the entering permanent's own card, then everything else.
proof fn lemma_pass_own(st: GameState, reg: CardRegistry, e: EnteringView, pass: Pass, card: CardId)
    requires
        own_card(st, e, pass) == Some(card),
    ensures
        sp_pass(st, reg, e, pass) == fold_entering(st, seq![(e.object, card)], reg, e, pass),
        fold_entering(st, seq![(e.object, card)], reg, e, pass).object == e.object,
{
    let cs = candidates(st.objects@, reg);
    let first = seq![(e.object, card)];
    let rest = without_object(cs, e.object);
    assert(pass_candidates(st, reg, e.object, Some(card)) == first + rest);
    lemma_fold_concat(st, first, rest, reg, e, pass);
    assert(first.drop_last() =~= Seq::<(ObjectId, CardId)>::empty());
    let e1 = fold_entering(st, first, reg, e, pass);
    crate::replacement::lemma_fold_keeps_object(st, first, reg, e, pass);
    lemma_without_object(cs, e.object);
    lemma_fold_others(st, rest, reg, e1, pass);
}

/// A token enters as itself (never as a copy: it has not been asked to),
/// with at most one kind of counter, from its own card.
pub proof fn lemma_token_entry(st: GameState, reg: CardRegistry, e: EnteringView)
    requires
        e.counters.len() == 0,
        e.copy_of is None,
        st.spec_obj(e.object) matches Some(o) && o.entering_copy_choice == EnterAsCopyChoice::Unasked,
    ensures
        sp_for_entering(st, reg, e).copy_of is None,
        sp_for_entering(st, reg, e).object == e.object,
        sp_for_entering(st, reg, e).counters.len() <= 1,
        add_all_fits(Seq::empty(), sp_for_entering(st, reg, e).counters),
{
    let o = st.spec_obj(e.object).unwrap();
    let first = seq![(e.object, o.card_id)];
    assert(first.drop_last() =~= Seq::<(ObjectId, CardId)>::empty());
    assert(first.last() == (e.object, o.card_id));
    assert(fold_entering(st, first.drop_last(), reg, e, Pass::CopyOnly) == e);
    lemma_pass_own(st, reg, e, Pass::CopyOnly, o.card_id);
    let e1 = sp_pass(st, reg, e, Pass::CopyOnly);
    match reg.spec_get(o.card_id) {
        Some(card) => {
            match sp_replace_entering(st, e.object, card, e) {
                Some(next) => {
                    assert(next.copy_of is None);
                    assert(keep_pass(e, next, Pass::CopyOnly) == e);
                },
                None => {},
            }
        },
        None => {},
    }
    assert(e1 == e);
    assert(fold_entering(st, first.drop_last(), reg, e1, Pass::EverythingElse) == e1);
    lemma_pass_own(st, reg, e1, Pass::EverythingElse, o.card_id);
    let e2 = sp_pass(st, reg, e1, Pass::EverythingElse);
    assert(e2.counters.len() <= 1);
    let none = Seq::<(crate::types::CounterType, u32)>::empty();
    assert(add_all_fits(none, none));
    if e2.counters.len() == 1 {
        assert(e2.counters.drop_last() =~= none);
        assert(crate::zones::add_all(none, none) == none);
        assert(crate::objects::counter_index(none, e2.counters.last().0) is None);
        assert(crate::objects::spec_counter(none, e2.counters.last().0) == 0);
    } else {
        assert(e2.counters =~= none);
    }
}


/// A token as the effect creating it describes it: its name, owner,
/// power and toughness, colors, types, keywords and subtypes, the same on
/// its printed face (CR 111.4), summoning sick and fresh in every other
/// respect. Whether it is tapped and what counters it has, its entry
/// decides.
pub open spec fn token_made(o: GameObject, id: ObjectId, name: Seq<char>, owner: PlayerId, power: i32, toughness: i32,
    colors: Seq<Color>, card_types: Seq<CardType>, keywords: Seq<Keyword>, subtypes: Seq<Seq<char>>) -> bool {
    &&& o.id == id && o.card_id == CardId(0) && o.name@ == name
    &&& o.owner == owner && o.controller == owner && o.base_controller == owner
    &&& o.zone == Zone::Battlefield && o.summoning_sick
    &&& o.last_controller is None && o.attacked_on_turn is None
    &&& o.damage_marked == 0 && o.damaged_by@.len() == 0 && !o.dealt_deathtouch_damage
    &&& o.power == Some(power) && o.toughness == Some(toughness)
    &&& o.colors@ == colors && o.keywords@ == keywords && o.card_types@ == card_types && views(o.subtypes@) == subtypes
    &&& o.targets@.len() == 0 && o.attached_to is None && o.attached_to_player is None && o.last_attached_to_player is None
    &&& o.zone_change_count == 0 && o.copy_grantor is None && o.is_token && !o.is_legendary
    &&& !o.cast_with_flashback && o.cast_from_zone is None && o.instance_oracle_text is None
    &&& o.instance_continuous_effects is None && o.card_state@.len() == 0
    &&& o.regeneration_shields == 0 && !o.is_transformed && !o.state_trigger_on_stack
    &&& o.x_value is None && o.chosen_mode is None && o.abilities_activated_this_turn@.len() == 0
    &&& o.entering_copy_choice == EnterAsCopyChoice::Unasked
    &&& o.token_face matches Some(f) && f.name@ == name && f.power == Some(power) && f.toughness == Some(toughness)
        && f.colors@ == colors && f.keywords@ == keywords && f.card_types@ == card_types && views(f.subtypes@) == subtypes
}

/// The state with the token placed, before it has entered: untapped, no
/// counters, next in id order.
pub open spec fn token_placed(st: GameState, mid: GameState, id: ObjectId) -> bool {
    &&& mid.objects@.len() == st.objects@.len() + 1
    &&& mid.objects@.drop_last() == st.objects@
    &&& mid.objects@.last().id == id
    &&& !mid.objects@.last().tapped
    &&& mid.objects@.last().counters@.len() == 0
    &&& mid == (GameState { objects: mid.objects, next_object_id: (st.next_object_id + 1) as u64, ..st })
}

/// How the placed token entered: tapped and with counters as the
/// replacement effects in force made it (CR 614.1c), as itself.
pub open spec fn token_entry(st: GameState, mid: GameState, fin: GameState, reg: CardRegistry, id: ObjectId) -> bool {
    let e = sp_for_entering(mid, reg, EnteringView {
        object: id,
        from: None,
        controller: mid.objects@.last().controller,
        tapped: false,
        counters: Seq::empty(),
        copy_of: None,
    });
    &&& token_placed(st, mid, id)
    &&& fin.objects@.last().tapped == e.tapped
    &&& fin.objects@.last().counters@ == add_all(Seq::empty(), e.counters)
    &&& log_grew(mid.game_log@, fin.game_log@, entering_lines(spec_obj_name(&mid, id), e))
}

fn copy_vec<T: Copy>(v: &Vec<T>) -> (r: Vec<T>)
    ensures
        r@ == v@,
{
    let mut r: Vec<T> = Vec::new();
    let mut i: usize = 0;
    while i < v.len()
        invariant
            i <= v@.len(),
            r@ == v@.take(i as int),
        decreases v@.len() - i,
    {
        r.push(v[i]);
        proof { assert(r@ =~= v@.take(i + 1)); }
        i = i + 1;
    }
    proof { assert(v@.take(i as int) =~= v@); }
    r
}

fn copy_strings(v: &Vec<String>) -> (r: Vec<String>)
    ensures
        views(r@) == views(v@),
{
    let mut r: Vec<String> = Vec::new();
    let mut i: usize = 0;
    while i < v.len()
        invariant
            i <= v@.len(),
            views(r@) == views(v@.take(i as int)),
            r@.len() == i,
        decreases v@.len() - i,
    {
        let ghost r0 = r@;
        let s = v[i].clone();
        r.push(s);
        proof {
            assert(s@ == v@[i as int]@);
            assert(views(r0) =~= views(v@.take(i as int)));
            assert forall|k: int| 0 <= k < i + 1 implies #[trigger] views(r@)[k] == views(v@.take(i + 1))[k] by {
                if k < i {
                    assert(r@[k] == r0[k]);
                    assert(views(r0)[k] == views(v@.take(i as int))[k]);
                }
            }
            assert(views(r@) =~= views(v@.take(i + 1)));
        }
        i = i + 1;
    }
    proof { assert(v@.take(i as int) =~= v@); }
    r
}

/// What an entry leaves of the rest of the state.
proof fn lemma_entry_frame(a: GameState, b: GameState, i: int, id: ObjectId, e: EnteringView, reg: CardRegistry)
    requires
        entry_applied(a, b, i, id, e, reg),
    ensures
        b == (GameState { objects: b.objects, events: b.events, game_log: b.game_log, ..a }),
{
    reveal(zone_frame);
}

impl GameState {
    /// Make one token on the battlefield, without the replacement effects
    /// that change how many are made; the ones that change how it enters
    /// apply (CR 614.1c).
    fn create_token_internal(&mut self, name: &str, owner: PlayerId, power: i32, toughness: i32,
        colors: Vec<Color>, card_types: Vec<CardType>, keywords: Vec<Keyword>, subtypes: Vec<String>,
        registry: &CardRegistry) -> (id: ObjectId)
        requires
            old(self).wf(),
            old(self).next_object_id < u64::MAX,
        ensures
            id.0 == old(self).next_object_id,
            final(self).wf(),
            final(self).next_object_id == old(self).next_object_id + 1,
            final(self).objects@.len() == old(self).objects@.len() + 1,
            final(self).objects@.drop_last() == old(self).objects@,
            token_made(final(self).objects@.last(), id, name@, owner, power, toughness, colors@, card_types@, keywords@, views(subtypes@)),
            exists|mid: GameState| #[trigger] token_entry(*old(self), mid, *final(self), *registry, id),
            final(self).events@ == old(self).events@.push(GameEvent::EnteredBattlefield { object: id, controller: owner }),
            *final(self) == (GameState {
                objects: final(self).objects,
                next_object_id: final(self).next_object_id,
                events: final(self).events,
                game_log: final(self).game_log,
                ..*old(self)
            }),
    {
        let ghost st = *self;
        let id = self.next_id();
        let face = TokenFace {
            name: String::from_str(name),
            power: Some(power),
            toughness: Some(toughness),
            colors: copy_vec(&colors),
            keywords: copy_vec(&keywords),
            card_types: copy_vec(&card_types),
            subtypes: copy_strings(&subtypes),
        };
        let obj = GameObject {
            id,
            card_id: CardId(0),
            name: String::from_str(name),
            owner,
            controller: owner,
            base_controller: owner,
            zone: Zone::Battlefield,
            tapped: false,
            summoning_sick: true,
            last_controller: None,
            attacked_on_turn: None,
            damage_marked: 0,
            damaged_by: Vec::new(),
            dealt_deathtouch_damage: false,
            power: Some(power),
            toughness: Some(toughness),
            colors,
            keywords,
            card_types,
            subtypes,
            targets: Vec::new(),
            attached_to: None,
            attached_to_player: None,
            last_attached_to_player: None,
            zone_change_count: 0,
            copy_grantor: None,
            is_token: true,
            is_legendary: false,
            cast_with_flashback: false,
            cast_from_zone: None,
            instance_oracle_text: None,
            instance_continuous_effects: None,
            card_state: Vec::new(),
            counters: Vec::new(),
            regeneration_shields: 0,
            is_transformed: false,
            state_trigger_on_stack: false,
            x_value: None,
            chosen_mode: None,
            abilities_activated_this_turn: Vec::new(),
            entering_copy_choice: EnterAsCopyChoice::Unasked,
            token_face: Some(face),
        };
        let i = self.objects.len();
        self.objects.push(obj);
        let ghost mid = *self;
        proof {
            assert(mid.objects@.drop_last() =~= st.objects@);
            assert forall|a: int, b: int| 0 <= a < b < mid.objects@.len() implies mid.objects@[a].id.0 < mid.objects@[b].id.0 by {
                if b < i as int {
                    assert(mid.objects@[a] == st.objects@[a]);
                    assert(mid.objects@[b] == st.objects@[b]);
                } else {
                    assert(mid.objects@[a] == st.objects@[a]);
                }
            }
            assert forall|a: int| 0 <= a < mid.objects@.len() implies mid.objects@[a].id.0 < mid.next_object_id by {
                if a < i as int {
                    assert(mid.objects@[a] == st.objects@[a]);
                }
            }
            crate::state::lemma_find_unique(mid.objects@, mid.next_object_id, id, i as int);
        }
        let plan = self.plan_entering(id, None, owner, registry);
        proof {
            let view = EnteringView { object: id, from: None, controller: owner, tapped: false, counters: Seq::empty(), copy_of: None };
            assert(plan@ == sp_for_entering(mid, *registry, view));
            lemma_token_entry(mid, *registry, view);
        }
        self.enter_at(i, id, &plan, registry);
        proof {
            lemma_entry_frame(mid, *self, i as int, id, plan@, *registry);
            assert(self.objects@.drop_last() =~= st.objects@);
            assert(token_entry(st, mid, *self, *registry, id));
            assert forall|a: int, b: int| 0 <= a < b < self.objects@.len() implies self.objects@[a].id.0 < self.objects@[b].id.0 by {
                if b < i as int {
                    assert(self.objects@[a] == mid.objects@[a]);
                    assert(self.objects@[b] == mid.objects@[b]);
                } else {
                    assert(self.objects@[a] == mid.objects@[a]);
                }
            }
            assert forall|a: int| 0 <= a < self.objects@.len() implies self.objects@[a].id.0 < self.next_object_id by {
                if a < i as int {
                    assert(self.objects@[a] == mid.objects@[a]);
                }
            }
        }
        id
    }
}

/// A token's name: the one the effect gives it, else its subtypes
/// (CR 111.4).
pub open spec fn token_name(name: Seq<char>, subtypes: Seq<Seq<char>>) -> Seq<char> {
    if name.len() == 0 && subtypes.len() > 0 { spec_join(subtypes, " "@) } else { name }
}

/// How many tokens an effect creating `count` for `owner` makes, after the
/// replacement effects in force (CR 614.1a), at least one.
pub open spec fn tokens_made(st: GameState, reg: CardRegistry, owner: PlayerId, count: u32) -> nat {
    let n = fold_tokens(st, candidates(st.objects@, reg), reg, owner, count);
    if n == 0 { 1 } else { n as nat }
}

/// The log line of a token-making effect.
pub open spec fn tokens_line(owner: PlayerId, n: nat, power: i32, toughness: i32, name: Seq<char>) -> Seq<char> {
    "p"@ + spec_decimal(owner.0 as nat) + " created "@ + spec_decimal(n) + " "@ + spec_signed_decimal(power as int) + "/"@
        + spec_signed_decimal(toughness as int) + " "@ + name + " token"@ + (if n == 1 { Seq::<char>::empty() } else { "s"@ })
}

/// The tokens made: fresh ids in order, each a `token_made` at the end of
/// the objects, each announced as entering.
pub open spec fn tokens_created(st: GameState, fin: GameState, reg: CardRegistry, ids: Seq<ObjectId>, n: nat,
    name: Seq<char>, owner: PlayerId, power: i32, toughness: i32, colors: Seq<Color>, card_types: Seq<CardType>,
    keywords: Seq<Keyword>, subtypes: Seq<Seq<char>>) -> bool {
    &&& ids.len() == n
    &&& fin.wf()
    &&& fin.next_object_id == st.next_object_id + n
    &&& fin.objects@.len() == st.objects@.len() + n
    &&& fin.objects@.subrange(0, st.objects@.len() as int) == st.objects@
    &&& fin.events@.len() == st.events@.len() + n
    &&& fin.events@.subrange(0, st.events@.len() as int) == st.events@
    &&& forall|k: int| 0 <= k < n ==> (#[trigger] ids[k]).0 == st.next_object_id + k
        && token_made(fin.objects@[st.objects@.len() + k], ids[k], name, owner, power, toughness, colors, card_types, keywords, subtypes)
        && fin.events@[st.events@.len() + k] == GameEvent::EnteredBattlefield { object: ids[k], controller: owner }
        && entered_as_made(reg, ids[k], fin.objects@[st.objects@.len() + k])
}

/// The token entered as `token_entry` says, from the state it was made in.
pub open spec fn entered_as_made(reg: CardRegistry, id: ObjectId, t: GameObject) -> bool {
    exists|a: GameState, mid: GameState, b: GameState| #[trigger] token_entry(a, mid, b, reg, id) && b.objects@.last() == t
}

/// What a token-making effect for `count` tokens did: the tokens it made,
/// one log line for all of them, and nothing else.
pub open spec fn tokens_result(st: GameState, fin: GameState, reg: CardRegistry, ids: Seq<ObjectId>, count: u32,
    name: Seq<char>, owner: PlayerId, power: i32, toughness: i32, colors: Seq<Color>, card_types: Seq<CardType>,
    keywords: Seq<Keyword>, subtypes: Seq<Seq<char>>) -> bool {
    let n = tokens_made(st, reg, owner, count);
    let nm = token_name(name, subtypes);
    &&& tokens_created(st, fin, reg, ids, n, nm, owner, power, toughness, colors, card_types, keywords, subtypes)
    &&& fin.game_log@.len() > 0
    &&& fin.game_log@.last().message@ == tokens_line(owner, n, power, toughness, nm)
    &&& fin.game_log@.last().level == LogLevel::Event
    &&& fin == (GameState {
        objects: fin.objects,
        next_object_id: fin.next_object_id,
        events: fin.events,
        game_log: fin.game_log,
        ..st
    })
}

impl GameState {
    /// Create tokens on the battlefield: `count` of them, as many more as
    /// the replacement effects in force say (CR 614.1a: the effect is one
    /// event), each entering through the replacement effects that change
    /// how a permanent enters, and one log line for all. Returns the ids.
    pub fn create_tokens_with_subtypes(&mut self, count: u32, name: &str, owner: PlayerId, power: i32, toughness: i32,
        colors: Vec<Color>, card_types: Vec<CardType>, keywords: Vec<Keyword>, subtypes: Vec<String>,
        registry: &CardRegistry) -> (ids: Vec<ObjectId>)
        requires
            old(self).wf(),
            old(self).next_object_id + tokens_made(*old(self), *registry, owner, count) < u64::MAX,
        ensures
            count == 0 ==> ids@.len() == 0 && *final(self) == *old(self),
            count > 0 ==> tokens_result(*old(self), *final(self), *registry, ids@, count, name@, owner, power, toughness,
                colors@, card_types@, keywords@, views(subtypes@)),
    {
        if count == 0 {
            return Vec::new();
        }
        let ghost st = *self;
        proof {
            reveal_strlit(" ");
            reveal_strlit("p");
            reveal_strlit(" created ");
            reveal_strlit("/");
            reveal_strlit(" token");
            reveal_strlit("s");
            reveal_strlit("");
        }
        let derived: String = if name.is_empty() && subtypes.len() > 0 {
            join(&subtypes, " ")
        } else {
            String::from_str(name)
        };
        let after = apply(self, ReplaceableEvent::CreatesTokens { controller: owner, count }, registry);
        let total: u32 = match after {
            Some(ReplaceableEvent::CreatesTokens { count: c, .. }) => if c == 0 { 1 } else { c },
            _ => return Vec::new(),
        };
        let mut ids: Vec<ObjectId> = Vec::new();
        let mut made: u32 = 0;
        proof {
            assert(st.objects@.subrange(0, st.objects@.len() as int) =~= st.objects@);
            assert(st.events@.subrange(0, st.events@.len() as int) =~= st.events@);
        }
        while made < total
            invariant
                st.wf(),
                total == tokens_made(st, *registry, owner, count),
                st.next_object_id + total < u64::MAX,
                made <= total,
                derived@ == token_name(name@, views(subtypes@)),
                tokens_created(st, *self, *registry, ids@, made as nat, derived@, owner, power, toughness, colors@, card_types@,
                    keywords@, views(subtypes@)),
                *self == (GameState {
                    objects: self.objects,
                    next_object_id: self.next_object_id,
                    events: self.events,
                    game_log: self.game_log,
                    ..st
                }),
            decreases total - made,
        {
            let ghost before = *self;
            let id = self.create_token_internal(derived.as_str(), owner, power, toughness, copy_vec(&colors),
                copy_vec(&card_types), copy_vec(&keywords), copy_strings(&subtypes), registry);
            ids.push(id);
            proof {
                let n0 = st.objects@.len();
                let e0 = st.events@.len();
                assert(self.objects@.subrange(0, n0 as int) =~= st.objects@) by {
                    assert(self.objects@.drop_last() == before.objects@);
                    assert(before.objects@.subrange(0, n0 as int) == st.objects@);
                }
                assert(self.events@.subrange(0, e0 as int) =~= st.events@) by {
                    assert(before.events@.subrange(0, e0 as int) == st.events@);
                }
                assert forall|k: int| 0 <= k < made + 1 implies (#[trigger] ids@[k]).0 == st.next_object_id + k
                    && token_made(self.objects@[n0 + k], ids@[k], derived@, owner, power, toughness, colors@, card_types@,
                        keywords@, views(subtypes@))
                    && self.events@[e0 + k] == GameEvent::EnteredBattlefield { object: ids@[k], controller: owner }
                    && entered_as_made(*registry, ids@[k], self.objects@[n0 + k]) by {
                    if k < made {
                        assert(self.objects@[n0 + k] == before.objects@[n0 + k]);
                        assert(self.events@[e0 + k] == before.events@[e0 + k]);
                    } else {
                        let mid = choose|mid: GameState| #[trigger] token_entry(before, mid, *self, *registry, id);
                        assert(token_entry(before, mid, *self, *registry, id));
                        assert(self.objects@[n0 + k] == self.objects@.last());
                    }
                }
            }
            made = made + 1;
        }
        let mut line = String::from_str("p");
        line.append(decimal(owner.0 as u64).as_str());
        line.append(" created ");
        line.append(decimal(total as u64).as_str());
        line.append(" ");
        line.append(signed_decimal(power as i64).as_str());
        line.append("/");
        line.append(signed_decimal(toughness as i64).as_str());
        line.append(" ");
        line.append(derived.as_str());
        line.append(" token");
        if total != 1 {
            line.append("s");
        }
        proof {
            assert(line@ == tokens_line(owner, total as nat, power, toughness, derived@));
        }
        self.log(LogLevel::Event, line);
        ids
    }
}

fn mark_copy(o: &mut GameObject, card_id: CardId, is_legendary: bool, is_transformed: bool)
    ensures
        *final(o) == (GameObject { card_id, is_legendary, is_transformed, ..*old(o) }),
{
    o.card_id = card_id;
    o.is_legendary = is_legendary;
    o.is_transformed = is_transformed;
}

/// A token made by copying: what it was made as, then given the copied
/// card's identity, its legendary flag and which face is up.
pub open spec fn copy_marked(mid: GameObject, fin: GameObject, src: GameObject) -> bool {
    fin == (GameObject { card_id: src.card_id, is_legendary: src.is_legendary, is_transformed: src.is_transformed, ..mid })
}

/// A copy of `src` made as tokens (`mid`), then marked as copies (`fin`);
/// `r` is the first.
pub open spec fn token_copy_made(st: GameState, mid: GameState, fin: GameState, reg: CardRegistry, ids: Seq<ObjectId>,
    source_id: ObjectId, owner: PlayerId, src: GameObject, r: ObjectId) -> bool {
    let pt = st.spec_printed_pt(source_id, &reg);
    &&& tokens_result(st, mid, reg, ids, 1, st.spec_name(source_id, &reg), owner,
        match pt.0 { Some(v) => v, None => 0 }, match pt.1 { Some(v) => v, None => 0 },
        st.spec_printed_colors(source_id, &reg), st.spec_printed_card_types(source_id, &reg),
        st.spec_printed_keywords(source_id, &reg), st.spec_printed_subtypes(source_id, &reg))
    &&& fin.objects@.len() == mid.objects@.len()
    &&& forall|k: int| 0 <= k < st.objects@.len() ==> #[trigger] fin.objects@[k] == mid.objects@[k]
    &&& forall|k: int| st.objects@.len() <= k < mid.objects@.len() ==> copy_marked(mid.objects@[k], #[trigger] fin.objects@[k], src)
    &&& fin == (GameState { objects: fin.objects, ..mid })
    &&& r == ids[0]
}

impl GameState {
    /// Create one token (or more, under a doubler) on the battlefield with
    /// these subtypes. Returns all created ids.
    pub fn create_token_with_subtypes(&mut self, name: &str, owner: PlayerId, power: i32, toughness: i32,
        colors: Vec<Color>, card_types: Vec<CardType>, keywords: Vec<Keyword>, subtypes: Vec<String>,
        registry: &CardRegistry) -> (ids: Vec<ObjectId>)
        requires
            old(self).wf(),
            old(self).next_object_id + tokens_made(*old(self), *registry, owner, 1) < u64::MAX,
        ensures
            tokens_result(*old(self), *final(self), *registry, ids@, 1, name@, owner, power, toughness,
                colors@, card_types@, keywords@, views(subtypes@)),
    {
        self.create_tokens_with_subtypes(1, name, owner, power, toughness, colors, card_types, keywords, subtypes, registry)
    }

    /// Create one token (or more, under a doubler) on the battlefield.
    /// Returns all created ids.
    pub fn create_token(&mut self, name: &str, owner: PlayerId, power: i32, toughness: i32,
        colors: Vec<Color>, card_types: Vec<CardType>, keywords: Vec<Keyword>,
        registry: &CardRegistry) -> (ids: Vec<ObjectId>)
        requires
            old(self).wf(),
            old(self).next_object_id + tokens_made(*old(self), *registry, owner, 1) < u64::MAX,
        ensures
            tokens_result(*old(self), *final(self), *registry, ids@, 1, name@, owner, power, toughness,
                colors@, card_types@, keywords@, Seq::empty()),
    {
        let ids = self.create_token_with_subtypes(name, owner, power, toughness, colors, card_types, keywords, Vec::new(), registry);
        proof {
            assert(views(Seq::<String>::empty()) =~= Seq::<Seq<char>>::empty());
        }
        ids
    }

    /// Create a token copying a permanent (CR 706.2, 707.8a): its copiable
    /// values are the face now showing, and the token takes the copied
    /// card's identity, legendary flag and face. Returns the first token
    /// made, or id 0 when the permanent is gone.
    pub fn create_token_copy(&mut self, source_id: ObjectId, owner: PlayerId, registry: &CardRegistry) -> (r: ObjectId)
        requires
            old(self).wf(),
            old(self).next_object_id + tokens_made(*old(self), *registry, owner, 1) < u64::MAX,
        ensures
            match old(self).spec_obj(source_id) {
                None => r == ObjectId(0) && *final(self) == *old(self),
                Some(src) => exists|mid: GameState, ids: Seq<ObjectId>|
                    #[trigger] token_copy_made(*old(self), mid, *final(self), *registry, ids, source_id, owner, src, r),
            },
    {
        let (card_id, is_legendary, source_transformed) = match self.get_object(source_id) {
            Some(s) => (s.card_id, s.is_legendary, s.is_transformed),
            None => return ObjectId(0),
        };
        let ghost st = *self;
        let n0 = self.objects.len();
        let name = self.name_of(source_id, registry);
        let (power, toughness) = self.printed_pt_of(source_id, registry);
        let colors = self.printed_colors_of(source_id, registry);
        let keywords = self.printed_keywords_of(source_id, registry);
        let card_types = self.printed_card_types_of(source_id, registry);
        let subtypes = self.printed_subtypes_of(source_id, registry);
        let p = match power { Some(v) => v, None => 0 };
        let t = match toughness { Some(v) => v, None => 0 };
        let ids = self.create_token_with_subtypes(name.as_str(), owner, p, t, colors, card_types, keywords, subtypes, registry);
        let ghost mid = *self;
        let mut k: usize = 0;
        while k < ids.len()
            invariant
                k <= ids@.len(),
                n0 == st.objects@.len(),
                mid.objects@.len() == n0 + ids@.len(),
                self.objects@.len() == mid.objects@.len(),
                forall|j: int| 0 <= j < n0 ==> #[trigger] self.objects@[j] == mid.objects@[j],
                forall|j: int| n0 + k <= j < mid.objects@.len() ==> #[trigger] self.objects@[j] == mid.objects@[j],
                forall|j: int| n0 <= j < n0 + k ==> copy_marked(mid.objects@[j], #[trigger] self.objects@[j], st.spec_obj(source_id).unwrap()),
                *self == (GameState { objects: self.objects, ..mid }),
                st.spec_obj(source_id) matches Some(so) && so.card_id == card_id && so.is_legendary == is_legendary
                    && so.is_transformed == source_transformed,
            decreases ids@.len() - k,
        {
            proof {
                assert(self.objects.len() == self.objects@.len());
            }
            mark_copy(&mut self.objects[n0 + k], card_id, is_legendary, source_transformed);
            k = k + 1;
        }
        let r = if ids.len() > 0 { ids[0] } else { ObjectId(0) };
        proof {
            assert(token_copy_made(st, mid, *self, *registry, ids@, source_id, owner, st.spec_obj(source_id).unwrap(), r));
        }
        r
    }
}
} // verus!
