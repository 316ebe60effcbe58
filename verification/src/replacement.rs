//! Replacement effects (CR 614): the engine builds the event it is about to
//! perform, offers it to every permanent whose card has a replacement
//! effect working from where that permanent is, in id order, and performs
//! what comes back.

use vstd::prelude::*;
use crate::cards::{CardDef, CardRegistry, ReplacementDef};
use crate::events::DamageTarget;
use crate::ids::{CardId, ObjectId, PlayerId};
use crate::state::{EnterAsCopyChoice, GameObject, GameState};
use crate::types::{CounterType, Zone};

verus! {

/// A permanent on its way onto the battlefield (CR 614.1c, 614.1d).
#[derive(Debug)]
pub struct EnteringPermanent {
    pub object: ObjectId,
    /// Where it comes from; `None` for a token.
    pub from: Option<Zone>,
    pub controller: PlayerId,
    pub tapped: bool,
    pub counters: Vec<(CounterType, u32)>,
    /// The permanent it enters as a copy of (CR 706.9), if any.
    pub copy_of: Option<ObjectId>,
}

/// An entering permanent as a value.
pub struct EnteringView {
    pub object: ObjectId,
    pub from: Option<Zone>,
    pub controller: PlayerId,
    pub tapped: bool,
    pub counters: Seq<(CounterType, u32)>,
    pub copy_of: Option<ObjectId>,
}

impl View for EnteringPermanent {
    type V = EnteringView;

    open spec fn view(&self) -> EnteringView {
        EnteringView {
            object: self.object,
            from: self.from,
            controller: self.controller,
            tapped: self.tapped,
            counters: self.counters@,
            copy_of: self.copy_of,
        }
    }
}

/// An event a replacement effect may act on before it happens.
#[derive(Debug)]
pub enum ReplaceableEvent {
    EntersBattlefield(EnteringPermanent),
    /// Tokens are about to be created under `controller`.
    CreatesTokens { controller: PlayerId, count: u32 },
    /// `player` would draw from an empty library.
    DrawsFromEmptyLibrary { player: PlayerId },
    /// Damage is about to be dealt.
    DealsDamage { source: ObjectId, target: DamageTarget, amount: u32, combat: bool },
}

/// What a replacement effect did to an event.
#[derive(Debug)]
pub enum Replacement {
    /// The event happens, but like this instead.
    Modified(ReplaceableEvent),
    /// The event does not happen at all.
    Replaced,
}

/// The object's card has a replacement effect that works from the zone the
/// object is in.
pub open spec fn is_candidate(o: GameObject, reg: CardRegistry) -> bool {
    reg.spec_get(o.card_id) matches Some(c) && c.replacement_zones@.contains(o.zone)
}

/// The replacement effects, in id order: (object, card) for each candidate.
pub open spec fn candidates(objs: Seq<GameObject>, reg: CardRegistry) -> Seq<(ObjectId, CardId)>
    decreases objs.len(),
{
    if objs.len() == 0 {
        Seq::empty()
    } else {
        let prior = candidates(objs.drop_last(), reg);
        if is_candidate(objs.last(), reg) { prior.push((objs.last().id, objs.last().card_id)) } else { prior }
    }
}

/// What the card's replacement effect, working for `src`, makes of an
/// entering permanent; `None` when it does not apply.
pub open spec fn sp_replace_entering(st: GameState, src: ObjectId, card: CardDef, e: EnteringView) -> Option<EnteringView> {
    match card.replacement {
        Some(ReplacementDef::EntersTapped) =>
            if e.object == src { Some(EnteringView { tapped: true, ..e }) } else { None },
        Some(ReplacementDef::EntersWithCounters { counter, count }) =>
            if e.object == src { Some(EnteringView { counters: e.counters.push((counter, count)), ..e }) } else { None },
        Some(ReplacementDef::EntersAsChosenCopy) =>
            if e.object == src && (st.spec_obj(src) matches Some(o) && o.entering_copy_choice is Copy) {
                Some(EnteringView { copy_of: Some(st.spec_obj(src).unwrap().entering_copy_choice->Copy_0), ..e })
            } else {
                None
            },
        _ => None,
    }
}

/// What the card's replacement effect, working for `src`, makes of a
/// number of tokens about to be created; `None` when it does not apply.
pub open spec fn sp_replace_tokens(st: GameState, src: ObjectId, card: CardDef, controller: PlayerId, count: u32) -> Option<u32> {
    match card.replacement {
        Some(ReplacementDef::DoublesTokens) =>
            if st.spec_obj(src) matches Some(o) && o.controller == controller {
                Some(if count as int * 2 > u32::MAX { u32::MAX } else { (count * 2) as u32 })
            } else {
                None
            },
        _ => None,
    }
}

/// The token count after every candidate has had its say, in order.
pub open spec fn fold_tokens(st: GameState, cs: Seq<(ObjectId, CardId)>, reg: CardRegistry, controller: PlayerId, count: u32) -> u32
    decreases cs.len(),
{
    if cs.len() == 0 {
        count
    } else {
        let prior = fold_tokens(st, cs.drop_last(), reg, controller, count);
        match reg.spec_get(cs.last().1) {
            Some(card) => match sp_replace_tokens(st, cs.last().0, card, controller, prior) {
                Some(n) => n,
                None => prior,
            },
            None => prior,
        }
    }
}

/// What a pass over the candidates keeps of each replacement (CR 616.1:
/// copy effects first, then the rest).
#[derive(Debug, Clone, Copy, PartialEq, Eq, Structural)]
pub enum Pass {
    /// Only the copy decision.
    CopyOnly,
    /// Everything but the copy decision, which is settled.
    EverythingElse,
    /// Everything.
    All,
}

/// What a pass keeps of one replacement.
pub open spec fn keep_pass(current: EnteringView, next: EnteringView, pass: Pass) -> EnteringView {
    match pass {
        Pass::CopyOnly => EnteringView { copy_of: next.copy_of, ..current },
        Pass::EverythingElse => EnteringView { copy_of: current.copy_of, ..next },
        Pass::All => next,
    }
}

/// The entering permanent after one pass over the candidates.
pub open spec fn fold_entering(st: GameState, cs: Seq<(ObjectId, CardId)>, reg: CardRegistry, e: EnteringView, pass: Pass) -> EnteringView
    decreases cs.len(),
{
    if cs.len() == 0 {
        e
    } else {
        let prior = fold_entering(st, cs.drop_last(), reg, e, pass);
        match reg.spec_get(cs.last().1) {
            Some(card) => match sp_replace_entering(st, cs.last().0, card, prior) {
                Some(next) => keep_pass(prior, next, pass),
                None => prior,
            },
            None => prior,
        }
    }
}

/// The candidates without the entering object's own entry.
pub open spec fn without_object(cs: Seq<(ObjectId, CardId)>, id: ObjectId) -> Seq<(ObjectId, CardId)>
    decreases cs.len(),
{
    if cs.len() == 0 {
        cs
    } else {
        let prior = without_object(cs.drop_last(), id);
        if cs.last().0 == id { prior } else { prior.push(cs.last()) }
    }
}

/// A pass's candidates: the entering permanent's own abilities first (read
/// from `own`, the card it is entering as), then everything else in id
/// order.
pub open spec fn pass_candidates(st: GameState, reg: CardRegistry, object: ObjectId, own: Option<CardId>) -> Seq<(ObjectId, CardId)> {
    let cs = candidates(st.objects@, reg);
    match own {
        Some(card) => seq![(object, card)] + without_object(cs, object),
        None => cs,
    }
}

/// The card an entering permanent's own arrival abilities come from in a
/// pass: in the second pass, the copied permanent's.
pub open spec fn own_card(st: GameState, e: EnteringView, pass: Pass) -> Option<CardId> {
    let who = if pass == Pass::EverythingElse && e.copy_of is Some { e.copy_of.unwrap() } else { e.object };
    match st.spec_obj(who) {
        Some(o) => Some(o.card_id),
        None => None,
    }
}

/// One pass of the entering order.
pub open spec fn sp_pass(st: GameState, reg: CardRegistry, e: EnteringView, pass: Pass) -> EnteringView {
    fold_entering(st, pass_candidates(st, reg, e.object, own_card(st, e, pass)), reg, e, pass)
}

/// The entering permanent after both passes.
pub open spec fn sp_for_entering(st: GameState, reg: CardRegistry, e: EnteringView) -> EnteringView {
    sp_pass(st, reg, sp_pass(st, reg, e, Pass::CopyOnly), Pass::EverythingElse)
}

fn collect_candidates(state: &GameState, registry: &CardRegistry) -> (r: Vec<(ObjectId, CardId)>)
    ensures
        r@ == candidates(state.objects@, *registry),
{
    let mut out: Vec<(ObjectId, CardId)> = Vec::new();
    let mut i: usize = 0;
    while i < state.objects.len()
        invariant
            i <= state.objects@.len(),
            out@ == candidates(state.objects@.take(i as int), *registry),
        decreases state.objects@.len() - i,
    {
        proof { assert(state.objects@.take(i + 1).drop_last() =~= state.objects@.take(i as int)); }
        let o = &state.objects[i];
        let cand = match registry.get(o.card_id) {
            Some(c) => contains_zone(&c.replacement_zones, o.zone),
            None => false,
        };
        if cand {
            out.push((o.id, o.card_id));
        }
        i = i + 1;
    }
    proof { assert(state.objects@.take(i as int) =~= state.objects@); }
    out
}

fn contains_zone(v: &Vec<Zone>, z: Zone) -> (b: bool)
    ensures
        b == v@.contains(z),
{
    let mut i: usize = 0;
    while i < v.len()
        invariant
            i <= v@.len(),
            forall|j: int| 0 <= j < i ==> v@[j] != z,
        decreases v@.len() - i,
    {
        if v[i] == z {
            assert(v@[i as int] == z);
            return true;
        }
        i = i + 1;
    }
    false
}

fn replace_entering(state: &GameState, src: ObjectId, card: &CardDef, e: &mut EnteringPermanent, pass: Pass)
    ensures
        final(e)@ == (match sp_replace_entering(*state, src, *card, old(e)@) {
            Some(next) => keep_pass(old(e)@, next, pass),
            None => old(e)@,
        }),
{
    if e.object != src {
        return;
    }
    match card.replacement {
        Some(ReplacementDef::EntersTapped) => {
            if pass != Pass::CopyOnly {
                e.tapped = true;
            }
        },
        Some(ReplacementDef::EntersWithCounters { counter, count }) => {
            if pass != Pass::CopyOnly {
                e.counters.push((counter, count));
            }
        },
        Some(ReplacementDef::EntersAsChosenCopy) => {
            match state.get_object(src) {
                Some(o) => match o.entering_copy_choice {
                    EnterAsCopyChoice::Copy(x) => {
                        if pass != Pass::EverythingElse {
                            e.copy_of = Some(x);
                        }
                    },
                    _ => {},
                },
                None => {},
            }
        },
        _ => {},
    }
}

fn run_entering_pass(state: &GameState, entering: EnteringPermanent, registry: &CardRegistry, pass: Pass)
    -> (r: EnteringPermanent)
    ensures
        r@ == sp_pass(*state, *registry, entering@, pass),
{
    let cs = collect_candidates(state, registry);
    let who = if pass == Pass::EverythingElse && entering.copy_of.is_some() { entering.copy_of.unwrap() } else { entering.object };
    let own = match state.get_object(who) {
        Some(o) => Some(o.card_id),
        None => None,
    };
    let mut list: Vec<(ObjectId, CardId)> = Vec::new();
    match own {
        Some(card) => {
            list.push((entering.object, card));
            let mut i: usize = 0;
            while i < cs.len()
                invariant
                    i <= cs@.len(),
                    list@ == seq![(entering.object, card)] + without_object(cs@.take(i as int), entering.object),
                decreases cs@.len() - i,
            {
                proof { assert(cs@.take(i + 1).drop_last() =~= cs@.take(i as int)); }
                if cs[i].0 != entering.object {
                    list.push(cs[i]);
                }
                i = i + 1;
                proof {
                    assert(list@ =~= seq![(entering.object, card)] + without_object(cs@.take(i as int), entering.object));
                }
            }
            proof { assert(cs@.take(i as int) =~= cs@); }
        },
        None => {
            list = cs;
        },
    }
    let ghost start = entering@;
    let mut current = entering;
    let mut k: usize = 0;
    while k < list.len()
        invariant
            k <= list@.len(),
            current@ == fold_entering(*state, list@.take(k as int), *registry, start, pass),
        decreases list@.len() - k,
    {
        proof { assert(list@.take(k + 1).drop_last() =~= list@.take(k as int)); }
        let (object, card_id) = list[k];
        match registry.get(card_id) {
            Some(card) => replace_entering(state, object, card, &mut current, pass),
            None => {},
        }
        k = k + 1;
    }
    proof { assert(list@.take(k as int) =~= list@); }
    current
}


fn fold_list(state: &GameState, list: &Vec<(ObjectId, CardId)>, registry: &CardRegistry, entering: EnteringPermanent, pass: Pass)
    -> (r: EnteringPermanent)
    ensures
        r@ == fold_entering(*state, list@, *registry, entering@, pass),
{
    let ghost start = entering@;
    let mut current = entering;
    let mut k: usize = 0;
    while k < list.len()
        invariant
            k <= list@.len(),
            current@ == fold_entering(*state, list@.take(k as int), *registry, start, pass),
        decreases list@.len() - k,
    {
        proof { assert(list@.take(k + 1).drop_last() =~= list@.take(k as int)); }
        let (object, card_id) = list[k];
        match registry.get(card_id) {
            Some(card) => replace_entering(state, object, card, &mut current, pass),
            None => {},
        }
        k = k + 1;
    }
    proof { assert(list@.take(k as int) =~= list@); }
    current
}

/// Offer `event` to every replacement effect in id order and return the
/// event as it should happen (CR 614). Each effect applies at most once
/// (CR 614.5). The replacement effects cards here have only modify events;
/// none replaces one outright, so the answer is always an event.
pub fn apply(state: &mut GameState, event: ReplaceableEvent, registry: &CardRegistry) -> (r: Option<ReplaceableEvent>)
    ensures
        *final(state) == *old(state),
        match event {
            ReplaceableEvent::CreatesTokens { controller, count } =>
                r == Some(ReplaceableEvent::CreatesTokens {
                    controller,
                    count: fold_tokens(*old(state), candidates(old(state).objects@, *registry), *registry, controller, count),
                }),
            ReplaceableEvent::EntersBattlefield(e) =>
                r matches Some(ReplaceableEvent::EntersBattlefield(e2))
                    && e2@ == fold_entering(*old(state), candidates(old(state).objects@, *registry), *registry, e@, Pass::All),
            _ => r == Some(event),
        },
{
    let cs = collect_candidates(state, registry);
    match event {
        ReplaceableEvent::CreatesTokens { controller, count } => {
            let mut n = count;
            let mut k: usize = 0;
            while k < cs.len()
                invariant
                    k <= cs@.len(),
                    n == fold_tokens(*state, cs@.take(k as int), *registry, controller, count),
                decreases cs@.len() - k,
            {
                proof { assert(cs@.take(k + 1).drop_last() =~= cs@.take(k as int)); }
                let (object, card_id) = cs[k];
                match registry.get(card_id) {
                    Some(card) => match card.replacement {
                        Some(ReplacementDef::DoublesTokens) => {
                            let applies = match state.get_object(object) {
                                Some(o) => o.controller == controller,
                                None => false,
                            };
                            if applies {
                                n = if n > u32::MAX / 2 { u32::MAX } else { n * 2 };
                            }
                        },
                        _ => {},
                    },
                    None => {},
                }
                k = k + 1;
            }
            proof { assert(cs@.take(k as int) =~= cs@); }
            Some(ReplaceableEvent::CreatesTokens { controller, count: n })
        },
        ReplaceableEvent::EntersBattlefield(e) => {
            let e2 = fold_list(state, &cs, registry, e, Pass::All);
            Some(ReplaceableEvent::EntersBattlefield(e2))
        },
        other => Some(other),
    }
}

/// Run an entering permanent through the replacement layer: first the copy
/// decision, then every other effect, the entering permanent's own (as the
/// card it now enters as) first (CR 616.1). Entering can be modified but
/// never prevented.
pub fn for_entering(state: &mut GameState, entering: EnteringPermanent, registry: &CardRegistry) -> (r: EnteringPermanent)
    ensures
        *final(state) == *old(state),
        r@ == sp_for_entering(*old(state), *registry, entering@),
{
    let after_copy = run_entering_pass(state, entering, registry, Pass::CopyOnly);
    run_entering_pass(state, after_copy, registry, Pass::EverythingElse)
}

/// Replacement effects change how a permanent enters, never which one.
pub proof fn lemma_fold_keeps_object(st: GameState, cs: Seq<(ObjectId, CardId)>, reg: CardRegistry, e: EnteringView, pass: Pass)
    ensures
        fold_entering(st, cs, reg, e, pass).object == e.object,
    decreases cs.len(),
{
    if cs.len() > 0 {
        lemma_fold_keeps_object(st, cs.drop_last(), reg, e, pass);
    }
}

/// Both passes keep the entering object.
pub proof fn lemma_for_entering_keeps_object(st: GameState, reg: CardRegistry, e: EnteringView)
    ensures
        sp_for_entering(st, reg, e).object == e.object,
{
    let e1 = sp_pass(st, reg, e, Pass::CopyOnly);
    lemma_fold_keeps_object(st, pass_candidates(st, reg, e.object, own_card(st, e, Pass::CopyOnly)), reg, e, Pass::CopyOnly);
    lemma_fold_keeps_object(st, pass_candidates(st, reg, e1.object, own_card(st, e1, Pass::EverythingElse)), reg, e1, Pass::EverythingElse);
}
} // verus!

pub use crate::entry::{process_pending_entry_choices, record_entry_choice, refresh_pending_entry_choice};
