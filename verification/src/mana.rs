//! Paying mana costs from a pool, and choosing which mana sources to tap.

use vstd::prelude::*;
use crate::cards::ManaAbilityDef;
use crate::ids::ObjectId;
use crate::util::{lemma_sum_le, sum_of, lemma_sum_take_step, lemma_sum_prefix_le, lemma_take_full, lemma_elem_le_sum, lemma_sum_nonneg, lemma_sum_remove};
use crate::types::{color_of, spec_color_of,
    Color, ManaCost, ManaPool, ManaSymbol, ManaType, mana_of, spec_mana_of, spec_colorless_sum,
    spec_generic_sum, spec_pips, spec_has_x, spec_colored, lemma_colorless_sum_nonneg, lemma_generic_sum_nonneg,
};

verus! {

/// Why a cost could not be paid.
#[derive(Debug)]
pub enum ManaError {
    InsufficientMana,
}


// ===== Mana sources =====

/// The kind of mana source, ordered by opportunity cost of tapping.
/// Earlier = lower opportunity cost = prefer tapping first.
#[derive(Debug, Clone, Copy, PartialEq, Eq, Structural, PartialOrd, Ord)]
pub enum ManaSourceKind {
    /// Basic land or mana-only artifact (zero opportunity cost).
    BasicMana,
    /// Non-basic land with only mana abilities (flexibility cost only).
    NonBasicMana,
    /// Permanent with non-mana activated abilities (tapping locks out utility).
    HasUtilityAbility,
    /// Creature with mana ability (tapping prevents attack + block).
    Creature,
    /// Source with side effects (e.g. a mill on tap).
    HasSideEffects,
}

/// The tier's place in the opportunity-cost order.
pub open spec fn spec_kind_rank(k: ManaSourceKind) -> int {
    match k {
        ManaSourceKind::BasicMana => 0,
        ManaSourceKind::NonBasicMana => 1,
        ManaSourceKind::HasUtilityAbility => 2,
        ManaSourceKind::Creature => 3,
        ManaSourceKind::HasSideEffects => 4,
    }
}

fn kind_rank(k: ManaSourceKind) -> (r: u8)
    ensures
        r == spec_kind_rank(k),
{
    match k {
        ManaSourceKind::BasicMana => 0,
        ManaSourceKind::NonBasicMana => 1,
        ManaSourceKind::HasUtilityAbility => 2,
        ManaSourceKind::Creature => 3,
        ManaSourceKind::HasSideEffects => 4,
    }
}

/// A mana source available for autotapping.
#[derive(Debug)]
pub struct ManaSource {
    pub object_id: ObjectId,
    pub abilities: Vec<ManaAbilityDef>,
    pub source_kind: ManaSourceKind,
}

/// A color's slot in a per-color table (WUBRG order).
pub open spec fn spec_color_index(c: Color) -> int {
    match c {
        Color::White => 0,
        Color::Blue => 1,
        Color::Black => 2,
        Color::Red => 3,
        Color::Green => 4,
    }
}

fn color_index(c: Color) -> (i: usize)
    ensures
        i == spec_color_index(c),
        i < 5,
{
    match c {
        Color::White => 0,
        Color::Blue => 1,
        Color::Black => 2,
        Color::Red => 3,
        Color::Green => 4,
    }
}

/// The total amount an ability's produced list adds.
pub open spec fn spec_ability_total(a: ManaAbilityDef) -> int {
    sum_of(a.produced@.map_values(|e: (ManaType, u32)| e.1 as int))
}

/// The colorless part of what an ability adds.
pub open spec fn spec_colorless_made(a: ManaAbilityDef) -> int {
    sum_of(a.produced@.map_values(|e: (ManaType, u32)| if e.0 == ManaType::Colorless { e.1 as int } else { 0 }))
}

/// All the mana a source's abilities name, added up.
pub open spec fn spec_source_mana(src: ManaSource) -> int {
    sum_of(src.abilities@.map_values(|a: ManaAbilityDef| spec_ability_total(a)))
}

/// All the mana the sources' abilities name, added up.
pub open spec fn spec_all_mana(sources: Seq<ManaSource>) -> int {
    sum_of(sources.map_values(|src: ManaSource| spec_source_mana(src)))
}

/// The ability adds a positive amount of this type.
pub open spec fn spec_ability_makes(a: ManaAbilityDef, mt: ManaType) -> bool {
    exists|j: int| 0 <= j < a.produced@.len() && a.produced@[j].0 == mt && a.produced@[j].1 > 0
}

/// The position of the first ability that adds a positive amount of `mt`.
pub open spec fn spec_first_making(abs: Seq<ManaAbilityDef>, mt: ManaType) -> Option<int>
    decreases abs.len(),
{
    if abs.len() == 0 {
        None
    } else if spec_ability_makes(abs[0], mt) {
        Some(0)
    } else {
        match spec_first_making(abs.drop_first(), mt) {
            Some(p) => Some(p + 1),
            None => None,
        }
    }
}

/// The index of the first ability of `src` that adds `mt`, if any.
pub open spec fn spec_ability_producing(src: ManaSource, mt: ManaType) -> Option<usize> {
    match spec_first_making(src.abilities@, mt) {
        Some(p) => Some(src.abilities@[p].ability_index),
        None => None,
    }
}

/// The position of the first ability carrying this index: the one a
/// search by index finds (the length when none carries it).
pub open spec fn spec_index_pos(abs: Seq<ManaAbilityDef>, idx: usize) -> int
    decreases abs.len(),
{
    if abs.len() == 0 {
        0
    } else if abs[0].ability_index == idx {
        0
    } else {
        1 + spec_index_pos(abs.drop_first(), idx)
    }
}

/// The ability that the index of the ability at `p` names: the first one
/// carrying that index, whose mana the tap is counted by.
pub open spec fn spec_named(abs: Seq<ManaAbilityDef>, p: int) -> ManaAbilityDef {
    abs[spec_index_pos(abs, abs[p].ability_index)]
}

/// Where an ability of the source makes mana, the ability its index names
/// makes some too: a tap for a colored pip then never counts less than
/// the one mana it pays.
pub open spec fn spec_source_wf(src: ManaSource) -> bool {
    forall|p: int| 0 <= p < src.abilities@.len() && spec_ability_total(src.abilities@[p]) > 0
        ==> spec_ability_total(#[trigger] spec_named(src.abilities@, p)) > 0
}

proof fn lemma_index_pos_found(abs: Seq<ManaAbilityDef>, idx: usize, q: int)
    requires
        0 <= q < abs.len(),
        abs[q].ability_index == idx,
        forall|k: int| 0 <= k < q ==> abs[k].ability_index != idx,
    ensures
        spec_index_pos(abs, idx) == q,
    decreases q,
{
    if q > 0 {
        assert(abs[0].ability_index != idx);
        lemma_index_pos_found(abs.drop_first(), idx, q - 1);
    }
}

/// The ability names mana of this color, in any amount.
pub open spec fn spec_names_color(a: ManaAbilityDef, c: Color) -> bool {
    exists|j: int| 0 <= j < a.produced@.len() && a.produced@[j].0 == spec_mana_of(c)
}

/// Some ability of the source names mana of this color.
pub open spec fn spec_source_names_color(src: ManaSource, c: Color) -> bool {
    exists|i: int| 0 <= i < src.abilities@.len() && spec_names_color(src.abilities@[i], c)
}

/// How many distinct colors a source can produce: colorless-only = 0,
/// mono = 1, dual = 2, etc.
pub open spec fn spec_flexibility(src: ManaSource) -> int {
    (if spec_source_names_color(src, Color::White) { 1int } else { 0 })
        + (if spec_source_names_color(src, Color::Blue) { 1int } else { 0 })
        + (if spec_source_names_color(src, Color::Black) { 1int } else { 0 })
        + (if spec_source_names_color(src, Color::Red) { 1int } else { 0 })
        + (if spec_source_names_color(src, Color::Green) { 1int } else { 0 })
}

/// How much a per-color demand table asks of one mana type.
pub open spec fn spec_dval(d: Seq<u32>, mt: ManaType) -> int {
    match spec_color_of(mt) {
        Some(c) => d[spec_color_index(c)] as int,
        None => 0,
    }
}

/// The demand on the colors one ability produces.
pub open spec fn spec_ability_demand(a: ManaAbilityDef, d: Seq<u32>) -> int {
    sum_of(a.produced@.map_values(|e: (ManaType, u32)| spec_dval(d, e.0)))
}

/// The demand on the colors a source produces.
pub open spec fn spec_demand_score(src: ManaSource, d: Seq<u32>) -> int {
    sum_of(src.abilities@.map_values(|a: ManaAbilityDef| spec_ability_demand(a, d)))
}

/// The per-color pips wanted by the other spells in hand.
pub open spec fn spec_hand_demand(hand: Seq<ManaCost>, c: Color) -> int {
    sum_of(hand.map_values(|cost: ManaCost| spec_pips(cost.symbols@, c)))
}

/// The hand-demand table, WUBRG.
pub open spec fn spec_demand_table(hand: Seq<ManaCost>) -> Seq<u32> {
    seq![
        spec_hand_demand(hand, Color::White) as u32,
        spec_hand_demand(hand, Color::Blue) as u32,
        spec_hand_demand(hand, Color::Black) as u32,
        spec_hand_demand(hand, Color::Red) as u32,
        spec_hand_demand(hand, Color::Green) as u32,
    ]
}

/// The sort key of a source: (tier, flexibility, hand demand). Lower taps
/// first.
pub open spec fn spec_sort_key(src: ManaSource, d: Seq<u32>) -> (int, int, int) {
    (spec_kind_rank(src.source_kind), spec_flexibility(src), spec_demand_score(src, d))
}

/// Lexicographic order on sort keys.
pub open spec fn spec_key_lt(a: (int, int, int), b: (int, int, int)) -> bool {
    a.0 < b.0 || (a.0 == b.0 && (a.1 < b.1 || (a.1 == b.1 && a.2 < b.2)))
}

proof fn lemma_dval_nonneg(d: Seq<u32>, a: ManaAbilityDef, vals: Seq<int>)
    requires
        d.len() == 5,
        vals == a.produced@.map_values(|e: (ManaType, u32)| spec_dval(d, e.0)),
    ensures
        forall|j: int| 0 <= j < vals.len() ==> #[trigger] vals[j] >= 0,
{
}

proof fn lemma_ability_demand_nonneg(d: Seq<u32>, a: ManaAbilityDef)
    requires
        d.len() == 5,
    ensures
        spec_ability_demand(a, d) >= 0,
{
    let vals = a.produced@.map_values(|e: (ManaType, u32)| spec_dval(d, e.0));
    lemma_dval_nonneg(d, a, vals);
    lemma_sum_nonneg(vals);
}

/// Compute the "flexibility" of a mana source: how many distinct colors it can produce.
/// Colorless-only = 0, mono = 1, dual = 2, etc.
fn source_flexibility(source: &ManaSource) -> (n: usize)
    ensures
        n == spec_flexibility(*source),
{
    let mut n: usize = 0;
    if source_names_color(source, Color::White) { n = n + 1; }
    if source_names_color(source, Color::Blue) { n = n + 1; }
    if source_names_color(source, Color::Black) { n = n + 1; }
    if source_names_color(source, Color::Red) { n = n + 1; }
    if source_names_color(source, Color::Green) { n = n + 1; }
    n
}

fn source_names_color(source: &ManaSource, c: Color) -> (b: bool)
    ensures
        b == spec_source_names_color(*source, c),
{
    let mt = mana_of(c);
    let mut i: usize = 0;
    while i < source.abilities.len()
        invariant
            i <= source.abilities@.len(),
            mt == spec_mana_of(c),
            forall|k: int| 0 <= k < i ==> !spec_names_color(#[trigger] source.abilities@[k], c),
        decreases source.abilities@.len() - i,
    {
        let ability = &source.abilities[i];
        let mut j: usize = 0;
        while j < ability.produced.len()
            invariant
                j <= ability.produced@.len(),
                i < source.abilities@.len(),
                *ability == source.abilities@[i as int],
                mt == spec_mana_of(c),
                forall|k: int| 0 <= k < j ==> #[trigger] ability.produced@[k].0 != mt,
            decreases ability.produced@.len() - j,
        {
            if ability.produced[j].0 == mt {
                proof {
                    assert(spec_names_color(source.abilities@[i as int], c)) by {
                        assert(source.abilities@[i as int].produced@[j as int].0 == spec_mana_of(c));
                    }
                }
                return true;
            }
            j = j + 1;
        }
        i = i + 1;
    }
    false
}

/// Compute the "hand demand" score for a source: how much other spells in hand
/// need the colors this source produces. Higher = more demanded = prefer NOT tapping.
fn hand_demand_score(source: &ManaSource, hand_demand: &[u32; 5]) -> (score: u32)
    requires
        spec_demand_score(*source, hand_demand@) <= u32::MAX,
    ensures
        score == spec_demand_score(*source, hand_demand@),
{
    let ghost d = hand_demand@;
    let ghost vals = source.abilities@.map_values(|a: ManaAbilityDef| spec_ability_demand(a, d));
    proof {
        assert forall|k: int| 0 <= k < vals.len() implies vals[k] >= 0 by {
            lemma_ability_demand_nonneg(d, source.abilities@[k]);
        }
    }
    let mut score: u32 = 0;
    let mut i: usize = 0;
    while i < source.abilities.len()
        invariant
            i <= source.abilities@.len(),
            d == hand_demand@,
            d.len() == 5,
            vals == source.abilities@.map_values(|a: ManaAbilityDef| spec_ability_demand(a, d)),
            forall|k: int| 0 <= k < vals.len() ==> vals[k] >= 0,
            sum_of(vals) <= u32::MAX,
            score == sum_of(vals.take(i as int)),
        decreases source.abilities@.len() - i,
    {
        proof {
            lemma_sum_take_step(vals, i as int);
            lemma_sum_prefix_le(vals, i + 1);
        }
        let a = ability_demand(&source.abilities[i], hand_demand, (u32::MAX - score) as u32);
        score = score + a;
        i = i + 1;
    }
    proof { lemma_take_full(vals); }
    score
}

/// The demand on the colors one ability produces, given that it is at most
/// `bound`.
fn ability_demand(ability: &ManaAbilityDef, hand_demand: &[u32; 5], bound: u32) -> (n: u32)
    requires
        spec_ability_demand(*ability, hand_demand@) <= bound,
    ensures
        n == spec_ability_demand(*ability, hand_demand@),
{
    let ghost d = hand_demand@;
    let ghost vals = ability.produced@.map_values(|e: (ManaType, u32)| spec_dval(d, e.0));
    proof { lemma_dval_nonneg(d, *ability, vals); }
    let mut n: u32 = 0;
    let mut j: usize = 0;
    while j < ability.produced.len()
        invariant
            j <= ability.produced@.len(),
            d == hand_demand@,
            d.len() == 5,
            vals == ability.produced@.map_values(|e: (ManaType, u32)| spec_dval(d, e.0)),
            forall|k: int| 0 <= k < vals.len() ==> vals[k] >= 0,
            sum_of(vals) <= bound,
            n == sum_of(vals.take(j as int)),
        decreases ability.produced@.len() - j,
    {
        proof {
            lemma_sum_take_step(vals, j as int);
            lemma_sum_prefix_le(vals, j + 1);
        }
        let mt = ability.produced[j].0;
        match color_of(mt) {
            Some(c) => {
                let k = color_index(c);
                n = n + hand_demand[k];
            },
            None => {},
        }
        j = j + 1;
    }
    proof { lemma_take_full(vals); }
    n
}

/// Composite sort key for source priority: (opportunity cost tier, flexibility, hand demand).
/// Lower = prefer tapping first.
fn source_sort_key(source: &ManaSource, hand_demand: &[u32; 5]) -> (k: (u8, usize, u32))
    requires
        spec_demand_score(*source, hand_demand@) <= u32::MAX,
    ensures
        (k.0 as int, k.1 as int, k.2 as int) == spec_sort_key(*source, hand_demand@),
{
    (kind_rank(source.source_kind), source_flexibility(source), hand_demand_score(source, hand_demand))
}

/// Build hand demand table: for each color, how many colored pips across all hand_costs.
fn build_hand_demand(hand_costs: &[ManaCost]) -> (d: [u32; 5])
    requires
        forall|i: int| 0 <= i < hand_costs@.len() ==> #[trigger] hand_costs@[i].symbols@.len() <= u32::MAX,
        forall|c: Color| #[trigger] spec_hand_demand(hand_costs@, c) <= u32::MAX,
    ensures
        d@ == spec_demand_table(hand_costs@),
{
    let mut demand: [u32; 5] = [0, 0, 0, 0, 0];
    let ghost hand = hand_costs@;
    let mut i: usize = 0;
    while i < hand_costs.len()
        invariant
            i <= hand.len(),
            hand == hand_costs@,
            forall|k: int| 0 <= k < hand.len() ==> #[trigger] hand[k].symbols@.len() <= u32::MAX,
            forall|c: Color| #[trigger] spec_hand_demand(hand, c) <= u32::MAX,
            forall|c: Color| #[trigger] demand@[spec_color_index(c)] == spec_hand_demand(hand.take(i as int), c),
            demand@.len() == 5,
        decreases hand.len() - i,
    {
        let reqs = hand_costs[i].colored_requirements();
        proof {
            assert forall|c: Color| spec_hand_demand(hand.take(i + 1), c) == spec_hand_demand(hand.take(i as int), c) + spec_pips(hand[i as int].symbols@, c)
                && spec_hand_demand(hand.take(i + 1), c) <= u32::MAX by {
                let vals = hand.map_values(|cost: ManaCost| spec_pips(cost.symbols@, c));
                assert(hand.take(i + 1).map_values(|cost: ManaCost| spec_pips(cost.symbols@, c)) =~= vals.take(i + 1));
                assert(hand.take(i as int).map_values(|cost: ManaCost| spec_pips(cost.symbols@, c)) =~= vals.take(i as int));
                lemma_sum_take_step(vals, i as int);
                assert forall|k: int| 0 <= k < vals.len() implies vals[k] >= 0 by {
                    lemma_pips_nonneg(hand[k].symbols@, c);
                }
                lemma_sum_prefix_le(vals, i + 1);
                assert(sum_of(vals) == spec_hand_demand(hand, c));
            }
        }
        let mut k: usize = 0;
        while k < 5
            invariant
                k <= 5,
                reqs@.len() == 5,
                forall|j: int| 0 <= j < 5 ==> reqs@[j] == (crate::types::spec_wubrg()[j], spec_pips(hand[i as int].symbols@, crate::types::spec_wubrg()[j]) as u32),
                demand@.len() == 5,
                forall|c: Color| spec_hand_demand(hand.take(i + 1), c) == spec_hand_demand(hand.take(i as int), c) + spec_pips(hand[i as int].symbols@, c)
                    && spec_hand_demand(hand.take(i + 1), c) <= u32::MAX,
                forall|c: Color| #[trigger] demand@[spec_color_index(c)] == (if spec_color_index(c) < k {
                    spec_hand_demand(hand.take(i + 1), c)
                } else {
                    spec_hand_demand(hand.take(i as int), c)
                }),
            decreases 5 - k,
        {
            let (color, count) = reqs[k];
            let ci = color_index(color);
            proof {
                lemma_pips_nonneg(hand[i as int].symbols@, color);
                assert(ci == k);
            }
            demand[ci] = demand[ci] + count;
            k = k + 1;
        }
        i = i + 1;
    }
    proof {
        lemma_take_full(hand);
        assert(demand@[spec_color_index(Color::White)] == spec_hand_demand(hand, Color::White));
        assert(demand@[spec_color_index(Color::Blue)] == spec_hand_demand(hand, Color::Blue));
        assert(demand@[spec_color_index(Color::Black)] == spec_hand_demand(hand, Color::Black));
        assert(demand@[spec_color_index(Color::Red)] == spec_hand_demand(hand, Color::Red));
        assert(demand@[spec_color_index(Color::Green)] == spec_hand_demand(hand, Color::Green));
        assert(demand@ =~= spec_demand_table(hand));
    }
    demand
}


// ===== Choosing sources to tap =====

/// What a source has to be able to do to be picked.
#[derive(Debug, Clone, Copy, PartialEq, Eq, Structural)]
pub enum Want {
    /// Produce a positive amount of this mana type.
    Produces(ManaType),
    /// Anything at all.
    Anything,
}

pub open spec fn spec_wants(src: ManaSource, w: Want) -> bool {
    match w {
        Want::Produces(mt) => spec_ability_producing(src, mt) is Some,
        Want::Anything => true,
    }
}

/// Among the first `k` available sources that satisfy `w`, the position of
/// the first one with the lowest sort key.
pub open spec fn spec_best_upto(s: Seq<ManaSource>, avail: Seq<usize>, d: Seq<u32>, w: Want, k: int) -> Option<int>
    decreases k,
{
    if k <= 0 {
        None
    } else {
        let prev = spec_best_upto(s, avail, d, w, k - 1);
        let i = k - 1;
        if !spec_wants(s[avail[i] as int], w) {
            prev
        } else {
            match prev {
                None => Some(i),
                Some(j) => if spec_key_lt(spec_sort_key(s[avail[i] as int], d), spec_sort_key(s[avail[j] as int], d)) {
                    Some(i)
                } else {
                    Some(j)
                },
            }
        }
    }
}

/// The position in `avail` of the source to tap next for `w`: the first
/// with the lowest sort key.
pub open spec fn spec_best(s: Seq<ManaSource>, avail: Seq<usize>, d: Seq<u32>, w: Want) -> Option<int> {
    spec_best_upto(s, avail, d, w, avail.len() as int)
}

/// Phase 1: tap for the `{C}` part, best source first, until it is paid.
/// Returns the sources still available, the plan so far and the excess
/// mana the taps made beyond what they paid for; `None` if no source can
/// make colorless mana while some is still owed.
pub open spec fn spec_phase1(
    s: Seq<ManaSource>,
    d: Seq<u32>,
    avail: Seq<usize>,
    plan: Seq<(ObjectId, usize)>,
    excess: int,
    rem: int,
) -> Option<(Seq<usize>, Seq<(ObjectId, usize)>, int)>
    decreases avail.len(),
{
    if rem <= 0 {
        Some((avail, plan, excess))
    } else {
        match spec_best(s, avail, d, Want::Produces(ManaType::Colorless)) {
            None => None,
            Some(pos) => if !(0 <= pos < avail.len()) {
                None
            } else {
                let src = s[avail[pos] as int];
                match spec_first_making(src.abilities@, ManaType::Colorless) {
                    None => None,
                    Some(ap) => {
                        let ab = spec_named(src.abilities@, ap);
                        let made = spec_colorless_made(ab);
                        let used = if made < rem { made } else { rem };
                        spec_phase1(s, d, avail.remove(pos), plan.push((src.object_id, src.abilities@[ap].ability_index)),
                            excess + spec_ability_total(ab) - used, rem - used)
                    },
                }
            },
        }
    }
}

/// Phase 2: one tap per colored pip still owed, in the given order.
pub open spec fn spec_phase2(
    s: Seq<ManaSource>,
    d: Seq<u32>,
    avail: Seq<usize>,
    plan: Seq<(ObjectId, usize)>,
    excess: int,
    colors: Seq<Color>,
) -> Option<(Seq<usize>, Seq<(ObjectId, usize)>, int)>
    decreases colors.len(),
{
    if colors.len() == 0 {
        Some((avail, plan, excess))
    } else {
        let mt = spec_mana_of(colors[0]);
        match spec_best(s, avail, d, Want::Produces(mt)) {
            None => None,
            Some(pos) => if !(0 <= pos < avail.len()) {
                None
            } else {
                let src = s[avail[pos] as int];
                match spec_first_making(src.abilities@, mt) {
                    None => None,
                    Some(ap) => {
                        let ab = spec_named(src.abilities@, ap);
                        spec_phase2(s, d, avail.remove(pos), plan.push((src.object_id, src.abilities@[ap].ability_index)),
                            excess + spec_ability_total(ab) - 1, colors.drop_first())
                    },
                }
            },
        }
    }
}

/// Among the first `k` abilities, the position of the first one whose
/// colors the hand demands least.
pub open spec fn spec_min_demand_upto(abs: Seq<ManaAbilityDef>, d: Seq<u32>, k: int) -> Option<int>
    decreases k,
{
    if k <= 0 {
        None
    } else {
        match spec_min_demand_upto(abs, d, k - 1) {
            None => Some(k - 1),
            Some(j) => if spec_ability_demand(abs[k - 1], d) < spec_ability_demand(abs[j], d) {
                Some(k - 1)
            } else {
                Some(j)
            },
        }
    }
}

/// Phase 3: tap for the generic part still owed, best source first, each
/// with its least-demanded ability.
pub open spec fn spec_phase3(
    s: Seq<ManaSource>,
    d: Seq<u32>,
    avail: Seq<usize>,
    plan: Seq<(ObjectId, usize)>,
    rem: int,
) -> Option<Seq<(ObjectId, usize)>>
    decreases avail.len(),
{
    if rem <= 0 {
        Some(plan)
    } else {
        match spec_best(s, avail, d, Want::Anything) {
            None => None,
            Some(pos) => if !(0 <= pos < avail.len()) {
                None
            } else {
                let src = s[avail[pos] as int];
                match spec_min_demand_upto(src.abilities@, d, src.abilities@.len() as int) {
                    None => None,
                    Some(ap) => {
                        let ab = spec_named(src.abilities@, ap);
                        let t = spec_ability_total(ab);
                        let used = if t < rem { t } else { rem };
                        spec_phase3(s, d, avail.remove(pos), plan.push((src.object_id, src.abilities@[ap].ability_index)), rem - used)
                    },
                }
            },
        }
    }
}

/// How many of the available sources can produce this color.
pub open spec fn spec_scarcity(s: Seq<ManaSource>, avail: Seq<usize>, c: Color) -> int
    decreases avail.len(),
{
    if avail.len() == 0 {
        0
    } else {
        spec_scarcity(s, avail.drop_last(), c) + (if spec_ability_producing(s[avail.last() as int], spec_mana_of(c)) is Some {
            1int
        } else {
            0
        })
    }
}

/// The first position whose key is greater than `x`'s.
pub open spec fn spec_first_greater(t: Seq<Color>, x: Color, key: spec_fn(Color) -> int) -> int
    decreases t.len(),
{
    if t.len() == 0 {
        0
    } else if key(t[0]) > key(x) {
        0
    } else {
        1 + spec_first_greater(t.drop_first(), x, key)
    }
}

/// A stable sort by key: each element goes after every earlier one whose
/// key is not greater.
pub open spec fn spec_sort_by(s: Seq<Color>, key: spec_fn(Color) -> int) -> Seq<Color>
    decreases s.len(),
{
    if s.len() == 0 {
        Seq::empty()
    } else {
        let t = spec_sort_by(s.drop_last(), key);
        t.insert(spec_first_greater(t, s.last(), key), s.last())
    }
}

/// Deduct floating mana from the colored pips, in order: a pip whose color
/// the pool has is paid and dropped, one it has not is kept.
pub open spec fn spec_keep_unpaid(pool: ManaPool, colors: Seq<Color>) -> (ManaPool, Seq<Color>)
    decreases colors.len(),
{
    if colors.len() == 0 {
        (pool, Seq::empty())
    } else {
        let mt = spec_mana_of(colors[0]);
        if pool.amount(mt) > 0 {
            spec_keep_unpaid(pool.with(mt, (pool.amount(mt) - 1) as u32), colors.drop_first())
        } else {
            let (p, rest) = spec_keep_unpaid(pool, colors.drop_first());
            (p, seq![colors[0]] + rest)
        }
    }
}

/// The sources before any is tapped: all of them, in order.
pub open spec fn spec_all_available(s: Seq<ManaSource>) -> Seq<usize> {
    Seq::new(s.len(), |i: int| i as usize)
}

/// The generic part still owed once the excess from earlier taps is used.
pub open spec fn spec_generic_after_excess(rem_gen: int, excess: int) -> int {
    if rem_gen > 0 {
        rem_gen - (if excess < rem_gen { excess } else { rem_gen })
    } else {
        rem_gen
    }
}

/// Phase 3 after phase 2's result.
pub open spec fn spec_from_phase2(
    s: Seq<ManaSource>,
    d: Seq<u32>,
    rem_gen: int,
    r2: Option<(Seq<usize>, Seq<(ObjectId, usize)>, int)>,
) -> Option<Seq<(ObjectId, usize)>> {
    match r2 {
        None => None,
        Some((a2, pl2, ex2)) => spec_phase3(s, d, a2, pl2, spec_generic_after_excess(rem_gen, ex2)),
    }
}

/// The order phase 2 pays the colored pips in: by how few of the sources
/// still available can produce each color, ties in cost order.
pub open spec fn spec_scarcity_order(s: Seq<ManaSource>, avail: Seq<usize>, colored: Seq<Color>) -> Seq<Color> {
    spec_sort_by(colored, |c: Color| spec_scarcity(s, avail, c))
}

/// Phases 2 and 3 after phase 1's result.
pub open spec fn spec_from_phase1(
    s: Seq<ManaSource>,
    d: Seq<u32>,
    colored: Seq<Color>,
    rem_gen: int,
    r1: Option<(Seq<usize>, Seq<(ObjectId, usize)>, int)>,
) -> Option<Seq<(ObjectId, usize)>> {
    match r1 {
        None => None,
        Some((a1, pl1, ex1)) => spec_from_phase2(s, d, rem_gen,
            spec_phase2(s, d, a1, pl1, ex1, spec_scarcity_order(s, a1, colored))),
    }
}

/// Everything after floating mana has paid what it could.
pub open spec fn spec_tap_for(
    s: Seq<ManaSource>,
    d: Seq<u32>,
    colored: Seq<Color>,
    rem_cl: int,
    rem_gen: int,
) -> Option<Seq<(ObjectId, usize)>> {
    if colored.len() == 0 && rem_cl == 0 && rem_gen <= 0 {
        Some(Seq::empty())
    } else {
        spec_from_phase1(s, d, colored, rem_gen, spec_phase1(s, d, spec_all_available(s), Seq::empty(), 0, rem_cl))
    }
}

/// The tap plan `compute_autotap` returns:
///
/// - an X cost is not autotapped (`None`); an empty cost needs no taps;
/// - floating mana pays first: colored pips of colors the pool has, then the
///   `{C}` part from floating colorless, then the generic part from
///   whatever floats (colorless first, then WUBRG); if that pays it all, no
///   taps;
/// - phase 1 taps for the `{C}` part still owed;
/// - phase 2 taps one source per colored pip still owed, the pips taken in
///   order of how few available sources can produce their color;
/// - the mana those taps made beyond what they paid for goes to the generic
///   part, and phase 3 taps for the rest.
///
/// Each tap takes, among the sources not yet tapped that can do the job, the
/// first with the lowest (tier, flexibility, hand demand), where hand demand
/// counts the pips of the other spells in hand. `None` if a phase runs out
/// of sources.
pub open spec fn spec_autotap(
    cost: ManaCost,
    pool: ManaPool,
    s: Seq<ManaSource>,
    hand: Seq<ManaCost>,
) -> Option<Seq<(ObjectId, usize)>> {
    let syms = cost.symbols@;
    if spec_has_x(syms) {
        None
    } else if syms.len() == 0 {
        Some(Seq::empty())
    } else {
        let (p1, colored) = spec_keep_unpaid(pool, spec_colored(syms));
        let cl0 = spec_colorless_sum(syms);
        let avail_c = p1.amount(ManaType::Colorless) as int;
        let ded = if avail_c < cl0 { avail_c } else { cl0 };
        let p2 = p1.with(ManaType::Colorless, (avail_c - ded) as u32);
        let rem_gen = spec_pay_generic(p2, spec_generic_sum(syms), spec_generic_order()).1;
        spec_tap_for(s, spec_demand_table(hand), colored, cl0 - ded, rem_gen)
    }
}

/// The mana named by the sources still available.
pub open spec fn spec_avail_mana(s: Seq<ManaSource>, avail: Seq<usize>) -> int {
    sum_of(avail.map_values(|i: usize| spec_source_mana(s[i as int])))
}

/// The sources can be autotapped: each is well formed, its hand-demand score
/// fits in a `u32`, and all the mana they name together fits in a `u32`.
pub open spec fn spec_sources_ok(s: Seq<ManaSource>, d: Seq<u32>) -> bool {
    &&& forall|i: int| 0 <= i < s.len() ==> #[trigger] spec_source_wf(s[i])
    &&& forall|i: int| 0 <= i < s.len() ==> #[trigger] spec_demand_score(s[i], d) <= u32::MAX
    &&& spec_all_mana(s) <= u32::MAX
}

/// The hand's costs can be counted: each fits a `u32` count and the pips
/// per color add up to no more than a `u32`.
pub open spec fn spec_hand_ok(hand: Seq<ManaCost>) -> bool {
    &&& forall|i: int| 0 <= i < hand.len() ==> #[trigger] hand[i].symbols@.len() <= u32::MAX
    &&& forall|c: Color| #[trigger] spec_hand_demand(hand, c) <= u32::MAX
}


proof fn lemma_first_making_found(abs: Seq<ManaAbilityDef>, mt: ManaType, i: int)
    requires
        0 <= i < abs.len(),
        forall|k: int| 0 <= k < i ==> !spec_ability_makes(#[trigger] abs[k], mt),
        spec_ability_makes(abs[i], mt),
    ensures
        spec_first_making(abs, mt) == Some(i),
    decreases i,
{
    if i > 0 {
        lemma_first_making_found(abs.drop_first(), mt, i - 1);
    }
}

proof fn lemma_first_making_none(abs: Seq<ManaAbilityDef>, mt: ManaType)
    requires
        forall|k: int| 0 <= k < abs.len() ==> !spec_ability_makes(#[trigger] abs[k], mt),
    ensures
        spec_first_making(abs, mt) is None,
    decreases abs.len(),
{
    if abs.len() > 0 {
        lemma_first_making_none(abs.drop_first(), mt);
    }
}

proof fn lemma_first_making_range(abs: Seq<ManaAbilityDef>, mt: ManaType)
    ensures
        spec_first_making(abs, mt) matches Some(p) ==> 0 <= p < abs.len() && spec_ability_makes(abs[p], mt),
    decreases abs.len(),
{
    if abs.len() > 0 {
        lemma_first_making_range(abs.drop_first(), mt);
    }
}

/// Whether one ability adds a positive amount of `mt`.
fn ability_makes(ability: &ManaAbilityDef, mt: ManaType) -> (b: bool)
    ensures
        b == spec_ability_makes(*ability, mt),
{
    let mut j: usize = 0;
    while j < ability.produced.len()
        invariant
            j <= ability.produced@.len(),
            forall|k: int| 0 <= k < j ==> !(#[trigger] ability.produced@[k].0 == mt && ability.produced@[k].1 > 0),
        decreases ability.produced@.len() - j,
    {
        let (t, amount) = ability.produced[j];
        if t == mt && amount > 0 {
            return true;
        }
        j = j + 1;
    }
    false
}

/// The position of the first ability of `source` that adds `mt`.
fn first_making_pos(source: &ManaSource, mt: ManaType) -> (r: Option<usize>)
    ensures
        match r {
            Some(p) => spec_first_making(source.abilities@, mt) == Some(p as int) && p < source.abilities@.len()
                && spec_ability_makes(source.abilities@[p as int], mt),
            None => spec_first_making(source.abilities@, mt) is None,
        },
{
    let mut i: usize = 0;
    while i < source.abilities.len()
        invariant
            i <= source.abilities@.len(),
            forall|k: int| 0 <= k < i ==> !spec_ability_makes(#[trigger] source.abilities@[k], mt),
        decreases source.abilities@.len() - i,
    {
        if ability_makes(&source.abilities[i], mt) {
            proof { lemma_first_making_found(source.abilities@, mt, i as int); }
            return Some(i);
        }
        i = i + 1;
    }
    proof { lemma_first_making_none(source.abilities@, mt); }
    None
}

/// Check if a source can produce a specific mana type, and return the ability_index if so.
fn ability_producing(source: &ManaSource, mana_type: ManaType) -> (r: Option<usize>)
    ensures
        r == spec_ability_producing(*source, mana_type),
{
    match first_making_pos(source, mana_type) {
        Some(p) => Some(source.abilities[p].ability_index),
        None => None,
    }
}

/// Check if a source can produce a specific color.
fn can_produce_color(source: &ManaSource, color: Color) -> (b: bool)
    ensures
        b == spec_ability_producing(*source, spec_mana_of(color)) is Some,
{
    ability_producing(source, mana_of(color)).is_some()
}

/// Check if a source can produce colorless mana.
fn can_produce_colorless(source: &ManaSource) -> (b: bool)
    ensures
        b == spec_ability_producing(*source, ManaType::Colorless) is Some,
{
    let mut i: usize = 0;
    while i < source.abilities.len()
        invariant
            i <= source.abilities@.len(),
            forall|k: int| 0 <= k < i ==> !spec_ability_makes(#[trigger] source.abilities@[k], ManaType::Colorless),
        decreases source.abilities@.len() - i,
    {
        let ability = &source.abilities[i];
        let mut j: usize = 0;
        while j < ability.produced.len()
            invariant
                j <= ability.produced@.len(),
                i < source.abilities@.len(),
                *ability == source.abilities@[i as int],
                forall|k: int| 0 <= k < i ==> !spec_ability_makes(#[trigger] source.abilities@[k], ManaType::Colorless),
                forall|k: int| 0 <= k < j ==> !(#[trigger] ability.produced@[k].0 == ManaType::Colorless && ability.produced@[k].1 > 0),
            decreases ability.produced@.len() - j,
        {
            let (mt, amount) = ability.produced[j];
            if mt == ManaType::Colorless && amount > 0 {
                proof { lemma_first_making_found(source.abilities@, ManaType::Colorless, i as int); }
                return true;
            }
            j = j + 1;
        }
        i = i + 1;
    }
    proof { lemma_first_making_none(source.abilities@, ManaType::Colorless); }
    false
}

/// Get total mana produced by a specific ability.
fn ability_total_mana(ability: &ManaAbilityDef) -> (n: u32)
    requires
        spec_ability_total(*ability) <= u32::MAX,
    ensures
        n == spec_ability_total(*ability),
{
    let ghost vals = ability.produced@.map_values(|e: (ManaType, u32)| e.1 as int);
    let mut n: u32 = 0;
    let mut j: usize = 0;
    while j < ability.produced.len()
        invariant
            j <= ability.produced@.len(),
            vals == ability.produced@.map_values(|e: (ManaType, u32)| e.1 as int),
            sum_of(vals) <= u32::MAX,
            n == sum_of(vals.take(j as int)),
        decreases ability.produced@.len() - j,
    {
        proof {
            lemma_sum_take_step(vals, j as int);
            lemma_sum_prefix_le(vals, j + 1);
        }
        n = n + ability.produced[j].1;
        j = j + 1;
    }
    proof { lemma_take_full(vals); }
    n
}

/// The colorless part of what an ability adds.
fn colorless_produced(ability: &ManaAbilityDef) -> (n: u32)
    requires
        spec_ability_total(*ability) <= u32::MAX,
    ensures
        n == spec_colorless_made(*ability),
        n <= spec_ability_total(*ability),
{
    let ghost vals = ability.produced@.map_values(|e: (ManaType, u32)| if e.0 == ManaType::Colorless { e.1 as int } else { 0 });
    let ghost tot = ability.produced@.map_values(|e: (ManaType, u32)| e.1 as int);
    proof { lemma_sum_le(vals, tot); }
    let mut n: u32 = 0;
    let mut j: usize = 0;
    while j < ability.produced.len()
        invariant
            j <= ability.produced@.len(),
            vals == ability.produced@.map_values(|e: (ManaType, u32)| if e.0 == ManaType::Colorless { e.1 as int } else { 0 }),
            sum_of(vals) <= u32::MAX,
            n == sum_of(vals.take(j as int)),
        decreases ability.produced@.len() - j,
    {
        proof {
            lemma_sum_take_step(vals, j as int);
            lemma_sum_prefix_le(vals, j + 1);
        }
        let (mt, amount) = ability.produced[j];
        if mt == ManaType::Colorless {
            n = n + amount;
        }
        j = j + 1;
    }
    proof { lemma_take_full(vals); }
    n
}

/// Position of the ability with this index: the first one carrying it.
fn find_ability(source: &ManaSource, ability_index: usize) -> (p: usize)
    requires
        exists|k: int| 0 <= k < source.abilities@.len() && source.abilities@[k].ability_index == ability_index,
    ensures
        p < source.abilities@.len(),
        source.abilities@[p as int].ability_index == ability_index,
        forall|k: int| 0 <= k < p ==> source.abilities@[k].ability_index != ability_index,
{
    let mut i: usize = 0;
    while i < source.abilities.len()
        invariant
            i <= source.abilities@.len(),
            exists|k: int| 0 <= k < source.abilities@.len() && source.abilities@[k].ability_index == ability_index,
            forall|k: int| 0 <= k < i ==> source.abilities@[k].ability_index != ability_index,
        decreases source.abilities@.len() - i,
    {
        if source.abilities[i].ability_index == ability_index {
            return i;
        }
        i = i + 1;
    }
    proof {
        let k = choose|k: int| 0 <= k < source.abilities@.len() && source.abilities@[k].ability_index == ability_index;
        assert(false);
    }
    0
}

/// Whether a source is one the search wants.
fn wants(source: &ManaSource, want: Want) -> (b: bool)
    ensures
        b == spec_wants(*source, want),
{
    match want {
        Want::Produces(ManaType::Colorless) => can_produce_colorless(source),
        Want::Produces(mt) => ability_producing(source, mt).is_some(),
        Want::Anything => true,
    }
}

fn key_lt(a: (u8, usize, u32), b: (u8, usize, u32)) -> (r: bool)
    ensures
        r == spec_key_lt((a.0 as int, a.1 as int, a.2 as int), (b.0 as int, b.1 as int, b.2 as int)),
{
    a.0 < b.0 || (a.0 == b.0 && (a.1 < b.1 || (a.1 == b.1 && a.2 < b.2)))
}

/// The position in `available` of the best source for `want`: among those
/// that qualify, the first with the lowest sort key.
fn best_available(
    sources: &[ManaSource],
    available: &Vec<usize>,
    hand_demand: &[u32; 5],
    want: Want,
) -> (r: Option<usize>)
    requires
        forall|j: int| 0 <= j < available@.len() ==> (#[trigger] available@[j]) < sources@.len(),
        forall|i: int| 0 <= i < sources@.len() ==> #[trigger] spec_demand_score(sources@[i], hand_demand@) <= u32::MAX,
    ensures
        match r {
            Some(p) => spec_best(sources@, available@, hand_demand@, want) == Some(p as int) && p < available@.len(),
            None => spec_best(sources@, available@, hand_demand@, want) is None,
        },
{
    let ghost s = sources@;
    let ghost d = hand_demand@;
    let mut best: Option<usize> = None;
    let mut best_key: (u8, usize, u32) = (0, 0, 0);
    let mut k: usize = 0;
    while k < available.len()
        invariant
            k <= available@.len(),
            s == sources@,
            d == hand_demand@,
            forall|j: int| 0 <= j < available@.len() ==> (#[trigger] available@[j]) < sources@.len(),
            forall|i: int| 0 <= i < sources@.len() ==> #[trigger] spec_demand_score(sources@[i], hand_demand@) <= u32::MAX,
            match best {
                Some(p) => spec_best_upto(s, available@, d, want, k as int) == Some(p as int) && p < k
                    && (best_key.0 as int, best_key.1 as int, best_key.2 as int) == spec_sort_key(s[available@[p as int] as int], d),
                None => spec_best_upto(s, available@, d, want, k as int) is None,
            },
        decreases available@.len() - k,
    {
        let src = &sources[available[k]];
        if wants(src, want) {
            let key = source_sort_key(src, hand_demand);
            match best {
                None => {
                    best = Some(k);
                    best_key = key;
                },
                Some(_) => {
                    if key_lt(key, best_key) {
                        best = Some(k);
                        best_key = key;
                    }
                },
            }
        }
        k = k + 1;
    }
    best
}

/// The position of the first ability of `source` whose colors the hand
/// demands least.
fn min_demand_ability(source: &ManaSource, hand_demand: &[u32; 5]) -> (p: usize)
    requires
        source.abilities@.len() > 0,
        spec_demand_score(*source, hand_demand@) <= u32::MAX,
    ensures
        spec_min_demand_upto(source.abilities@, hand_demand@, source.abilities@.len() as int) == Some(p as int),
        p < source.abilities@.len(),
{
    let ghost d = hand_demand@;
    let ghost abs = source.abilities@;
    let ghost vals = abs.map_values(|a: ManaAbilityDef| spec_ability_demand(a, d));
    proof {
        assert forall|k: int| 0 <= k < vals.len() implies vals[k] >= 0 by {
            lemma_ability_demand_nonneg(d, abs[k]);
        }
    }
    let mut best: usize = 0;
    let mut best_val: u32 = 0;
    let mut k: usize = 0;
    while k < source.abilities.len()
        invariant
            k <= abs.len(),
            abs.len() > 0,
            d == hand_demand@,
            d.len() == 5,
            abs == source.abilities@,
            vals == abs.map_values(|a: ManaAbilityDef| spec_ability_demand(a, d)),
            forall|j: int| 0 <= j < vals.len() ==> vals[j] >= 0,
            sum_of(vals) <= u32::MAX,
            k > 0 ==> spec_min_demand_upto(abs, d, k as int) == Some(best as int) && best < k
                && best_val == spec_ability_demand(abs[best as int], d),
        decreases abs.len() - k,
    {
        proof {
            lemma_elem_le_sum(vals, k as int);
        }
        let v = ability_demand(&source.abilities[k], hand_demand, u32::MAX);
        if k == 0 || v < best_val {
            best = k;
            best_val = v;
        }
        k = k + 1;
    }
    best
}


proof fn lemma_best_upto(s: Seq<ManaSource>, avail: Seq<usize>, d: Seq<u32>, w: Want, k: int)
    ensures
        spec_best_upto(s, avail, d, w, k) matches Some(p) ==> 0 <= p < k && spec_wants(s[avail[p] as int], w),
    decreases k,
{
    if k > 0 {
        lemma_best_upto(s, avail, d, w, k - 1);
    }
}

proof fn lemma_min_demand_upto(abs: Seq<ManaAbilityDef>, d: Seq<u32>, k: int)
    ensures
        spec_min_demand_upto(abs, d, k) matches Some(p) ==> 0 <= p < k,
        k > 0 ==> spec_min_demand_upto(abs, d, k) is Some,
    decreases k,
{
    if k > 0 {
        lemma_min_demand_upto(abs, d, k - 1);
    }
}

proof fn lemma_ability_total_nonneg(a: ManaAbilityDef)
    ensures
        spec_ability_total(a) >= 0,
{
    lemma_sum_nonneg(a.produced@.map_values(|e: (ManaType, u32)| e.1 as int));
}

proof fn lemma_ability_le_source(src: ManaSource, ap: int)
    requires
        0 <= ap < src.abilities@.len(),
    ensures
        0 <= spec_ability_total(src.abilities@[ap]) <= spec_source_mana(src),
{
    let vals = src.abilities@.map_values(|a: ManaAbilityDef| spec_ability_total(a));
    assert forall|j: int| 0 <= j < vals.len() implies vals[j] >= 0 by {
        lemma_ability_total_nonneg(src.abilities@[j]);
    }
    lemma_elem_le_sum(vals, ap);
}

proof fn lemma_source_mana_nonneg(src: ManaSource)
    ensures
        spec_source_mana(src) >= 0,
{
    let vals = src.abilities@.map_values(|a: ManaAbilityDef| spec_ability_total(a));
    assert forall|j: int| 0 <= j < vals.len() implies vals[j] >= 0 by {
        lemma_ability_total_nonneg(src.abilities@[j]);
    }
    lemma_sum_nonneg(vals);
}

/// Taking one source out of the available ones takes its mana out of
/// their total, which was at least that much.
proof fn lemma_avail_remove(s: Seq<ManaSource>, avail: Seq<usize>, pos: int)
    requires
        0 <= pos < avail.len(),
    ensures
        spec_avail_mana(s, avail.remove(pos)) == spec_avail_mana(s, avail) - spec_source_mana(s[avail[pos] as int]),
        0 <= spec_source_mana(s[avail[pos] as int]) <= spec_avail_mana(s, avail),
{
    let vals = avail.map_values(|i: usize| spec_source_mana(s[i as int]));
    assert(avail.remove(pos).map_values(|i: usize| spec_source_mana(s[i as int])) =~= vals.remove(pos));
    lemma_sum_remove(vals, pos);
    assert forall|j: int| 0 <= j < vals.len() implies vals[j] >= 0 by {
        lemma_source_mana_nonneg(s[avail[j] as int]);
    }
    lemma_elem_le_sum(vals, pos);
}

/// An ability that adds a positive amount of some type adds at least one
/// mana in all.
proof fn lemma_makes_total_pos(a: ManaAbilityDef, mt: ManaType)
    requires
        spec_ability_makes(a, mt),
    ensures
        spec_ability_total(a) >= 1,
{
    let j = choose|j: int| 0 <= j < a.produced@.len() && a.produced@[j].0 == mt && a.produced@[j].1 > 0;
    let vals = a.produced@.map_values(|e: (ManaType, u32)| e.1 as int);
    lemma_elem_le_sum(vals, j);
}

/// Compute the optimal set of mana sources to tap in order to pay a cost.
///
/// Returns `Some(tap_plan)` with (object_id, ability_index) pairs, or `None` if
/// the cost cannot be paid with available sources + floating mana.
///
/// `hand_costs` are the mana costs of OTHER castable spells in the player's hand,
/// used for color preservation (prefer not tapping sources needed by other spells).
///
/// A tap is counted by the ability its index names, the first one carrying
/// that index. A source with no abilities that comes up first for the
/// generic part ends the search with `None`.
pub fn compute_autotap(
    cost: &ManaCost,
    pool: &ManaPool,
    sources: &[ManaSource],
    hand_costs: &[ManaCost],
) -> (r: Option<Vec<(ObjectId, usize)>>)
    requires
        cost.wf(),
        spec_hand_ok(hand_costs@),
        spec_sources_ok(sources@, spec_demand_table(hand_costs@)),
    ensures
        match r {
            Some(plan) => spec_autotap(*cost, *pool, sources@, hand_costs@) == Some(plan@),
            None => spec_autotap(*cost, *pool, sources@, hand_costs@) is None,
        },
{
    // Skip X-cost spells -- caller should not pass these.
    if cost.has_x() {
        return None;
    }
    // Free spells need no tapping.
    if cost.symbols.len() == 0 {
        return Some(Vec::new());
    }

    let hand_demand = build_hand_demand(hand_costs);
    let ghost d = hand_demand@;
    let ghost s = sources@;
    let ghost syms = cost.symbols@;

    // Phase 0: Deduct floating mana from the cost.
    let mut sim_pool = *pool;
    // Collect colored requirements.
    let mut colored: Vec<Color> = Vec::new();
    let mut i: usize = 0;
    proof { assert(syms.skip(0) =~= syms); }
    while i < cost.symbols.len()
        invariant
            i <= syms.len(),
            syms == cost.symbols@,
            colored@ + spec_colored(syms.skip(i as int)) == spec_colored(syms),
        decreases syms.len() - i,
    {
        proof {
            assert(syms.skip(i as int).drop_first() =~= syms.skip(i + 1));
        }
        if let ManaSymbol::Colored(color) = cost.symbols[i] {
            proof { assert(colored@.push(color) + spec_colored(syms.skip(i + 1)) =~= colored@ + spec_colored(syms.skip(i as int))); }
            colored.push(color);
        } else {
            proof { assert(colored@ + spec_colored(syms.skip(i + 1)) =~= colored@ + spec_colored(syms.skip(i as int))); }
        }
        i = i + 1;
    }
    proof { assert(colored@ =~= spec_colored(syms)); }

    // Deduct floating mana: colored first.
    let ghost all_colored = colored@;
    let mut kept: Vec<Color> = Vec::new();
    let mut ci: usize = 0;
    proof { assert(all_colored.skip(0) =~= all_colored); }
    while ci < colored.len()
        invariant
            ci <= all_colored.len(),
            all_colored == colored@,
            ({
                let (pf, rest) = spec_keep_unpaid(sim_pool, all_colored.skip(ci as int));
                (pf, kept@ + rest)
            }) == spec_keep_unpaid(*pool, all_colored),
        decreases all_colored.len() - ci,
    {
        proof {
            assert(all_colored.skip(ci as int).drop_first() =~= all_colored.skip(ci + 1));
        }
        let color = colored[ci];
        let mt = mana_of(color);
        let available = sim_pool.get(mt);
        if available > 0 {
            sim_pool.set(mt, available - 1);
        } else {
            proof {
                let (pf, rest) = spec_keep_unpaid(sim_pool, all_colored.skip(ci + 1));
                assert(kept@.push(color) + rest =~= kept@ + (seq![color] + rest));
            }
            kept.push(color);
        }
        ci = ci + 1;
    }
    proof {
        assert(all_colored.skip(ci as int) =~= Seq::<Color>::empty());
        assert(kept@ + Seq::<Color>::empty() =~= kept@);
    }
    let ghost p1 = sim_pool;

    // Deduct floating mana: colorless-specific.
    let colorless0 = cost.colorless_amount();
    let mut rem_colorless = colorless0;
    {
        let available = sim_pool.get(ManaType::Colorless);
        let deduct = if available < rem_colorless { available } else { rem_colorless };
        if deduct > 0 {
            sim_pool.set(ManaType::Colorless, available - deduct);
            rem_colorless = rem_colorless - deduct;
        }
        proof {
            assert(sim_pool == p1.with(ManaType::Colorless, (available - deduct) as u32));
        }
    }
    let ghost p2 = sim_pool;

    // Deduct floating mana: generic (colorless first, then colors).
    let generic0 = cost.generic_amount();
    let mut rem_generic = generic0;
    if rem_generic > 0 {
        let types = [
            ManaType::Colorless,
            ManaType::White,
            ManaType::Blue,
            ManaType::Black,
            ManaType::Red,
            ManaType::Green,
        ];
        proof { assert(types@.skip(0) =~= types@); }
        let mut k: usize = 0;
        while k < 6 && rem_generic > 0
            invariant
                k <= 6,
                types@ == spec_generic_order(),
                spec_pay_generic(sim_pool, rem_generic as int, types@.skip(k as int))
                    == spec_pay_generic(p2, generic0 as int, spec_generic_order()),
            decreases 6 - k,
        {
            proof {
                assert(types@.skip(k as int).drop_first() =~= types@.skip(k + 1));
            }
            let mt = types[k];
            let available = sim_pool.get(mt);
            let deduct = if available < rem_generic { available } else { rem_generic };
            if deduct > 0 {
                sim_pool.set(mt, available - deduct);
                rem_generic = rem_generic - deduct;
            }
            k = k + 1;
        }
        proof {
            assert(spec_pay_generic(sim_pool, rem_generic as int, types@.skip(k as int)) == (sim_pool, rem_generic as int));
        }
    }
    proof {
        assert(spec_pay_generic(p2, generic0 as int, spec_generic_order()).1 == rem_generic as int);
        assert(spec_autotap(*cost, *pool, s, hand_costs@)
            == spec_tap_for(s, d, kept@, rem_colorless as int, rem_generic as int));
    }

    // If everything is satisfied by floating mana, done.
    if kept.len() == 0 && rem_colorless == 0 && rem_generic == 0 {
        return Some(Vec::new());
    }

    // Build mutable list of available sources (indices into the original slice).
    let mut available: Vec<usize> = Vec::new();
    let mut n: usize = 0;
    while n < sources.len()
        invariant
            n <= s.len(),
            s == sources@,
            available@ =~= spec_all_available(s).take(n as int),
        decreases s.len() - n,
    {
        available.push(n);
        n = n + 1;
    }
    proof {
        assert(available@ =~= spec_all_available(s));
        assert(spec_avail_mana(s, available@) == spec_all_mana(s)) by {
            assert(available@.map_values(|i: usize| spec_source_mana(s[i as int]))
                =~= s.map_values(|src: ManaSource| spec_source_mana(src)));
        }
    }
    let mut tap_plan: Vec<(ObjectId, usize)> = Vec::new();
    let mut excess: u32 = 0;
    let ghost rem_cl0 = rem_colorless as int;
    let ghost a0 = available@;
    let ghost rem_gen_total = rem_generic as int;
    let ghost target = spec_autotap(*cost, *pool, s, hand_costs@);
    proof {
        assert(target == spec_from_phase1(s, d, kept@, rem_gen_total, spec_phase1(s, d, a0, Seq::empty(), 0, rem_cl0)));
    }

    // Phase 1: Satisfy colorless-specific requirements ({C}).
    while rem_colorless > 0
        invariant
            s == sources@,
            d == hand_demand@,
            spec_sources_ok(s, d),
            forall|j: int| 0 <= j < available@.len() ==> (#[trigger] available@[j]) < s.len(),
            excess + spec_avail_mana(s, available@) <= spec_all_mana(s),
            spec_phase1(s, d, available@, tap_plan@, excess as int, rem_colorless as int)
                == spec_phase1(s, d, a0, Seq::empty(), 0, rem_cl0),
            target == spec_from_phase1(s, d, kept@, rem_gen_total, spec_phase1(s, d, a0, Seq::empty(), 0, rem_cl0)),
            target == spec_autotap(*cost, *pool, sources@, hand_costs@),
        decreases available@.len(),
    {
        match best_available(sources, &available, &hand_demand, Want::Produces(ManaType::Colorless)) {
            None => {
                proof {
                    assert(spec_phase1(s, d, a0, Seq::empty(), 0, rem_cl0) is None);
                }
                return None;
            },
            Some(pos) => {
                proof { lemma_best_upto(s, available@, d, Want::Produces(ManaType::Colorless), available@.len() as int); }
                let src_idx = available[pos];
                let source = &sources[src_idx];
                let ghost src = s[src_idx as int];
                let ghost p = spec_first_making(src.abilities@, ManaType::Colorless).unwrap();
                proof { lemma_first_making_range(src.abilities@, ManaType::Colorless); }
                // Find the ability that produces colorless.
                let ability_idx = ability_producing(source, ManaType::Colorless).unwrap();
                let ap = find_ability(source, ability_idx);
                proof {
                    lemma_index_pos_found(src.abilities@, ability_idx, ap as int);
                    assert(source.abilities@[ap as int] == spec_named(src.abilities@, p));
                    lemma_ability_le_source(src, ap as int);
                    lemma_avail_remove(s, available@, pos as int);
                }
                let ability = &source.abilities[ap];
                let colorless_made = colorless_produced(ability);
                let total_produced = ability_total_mana(ability);

                let used_for_colorless = if colorless_made < rem_colorless { colorless_made } else { rem_colorless };
                rem_colorless = rem_colorless - used_for_colorless;
                // Any extra mana (colorless or otherwise) from this tap goes to excess.
                excess = excess + (total_produced - used_for_colorless);

                tap_plan.push((source.object_id, ability_idx));
                available.remove(pos);
            },
        }
    }
    proof {
        assert(forall|j: int| 0 <= j < available@.len() ==> (#[trigger] available@[j]) < s.len());
    }
    let ghost a1 = available@;
    let ghost pl1 = tap_plan@;
    let ghost ex1 = excess as int;
    proof {
        assert(spec_phase1(s, d, a0, Seq::empty(), 0, rem_cl0) == Some((a1, pl1, ex1)));
    }

    // Phase 2: Satisfy colored requirements (most-constrained color first).
    // Sort colored needs by scarcity: colors with fewest available sources first.
    let ghost key = |c: Color| spec_scarcity(s, a1, c);
    let mut scarcity: [usize; 5] = [0, 0, 0, 0, 0];
    let wubrg = [Color::White, Color::Blue, Color::Black, Color::Red, Color::Green];
    let mut w: usize = 0;
    while w < 5
        invariant
            w <= 5,
            s == sources@,
            a1 == available@,
            forall|j: int| 0 <= j < available@.len() ==> (#[trigger] available@[j]) < s.len(),
            wubrg@ == crate::types::spec_wubrg(),
            scarcity@.len() == 5,
            forall|c: Color| spec_color_index(c) < w ==> #[trigger] scarcity@[spec_color_index(c)] == spec_scarcity(s, a1, c),
        decreases 5 - w,
    {
        let c = wubrg[w];
        let mut count: usize = 0;
        let mut j: usize = 0;
        while j < available.len()
            invariant
                j <= available@.len(),
                s == sources@,
                a1 == available@,
                forall|q: int| 0 <= q < available@.len() ==> (#[trigger] available@[q]) < s.len(),
                count == spec_scarcity(s, available@.take(j as int), c),
                count <= j,
            decreases available@.len() - j,
        {
            proof { assert(available@.take(j + 1).drop_last() =~= available@.take(j as int)); }
            if can_produce_color(&sources[available[j]], c) {
                count = count + 1;
            }
            j = j + 1;
        }
        proof {
            lemma_take_full(available@);
            assert(spec_color_index(c) == w);
        }
        scarcity[w] = count;
        w = w + 1;
    }
    let mut colored_needs: Vec<Color> = Vec::new();
    let mut ki: usize = 0;
    while ki < kept.len()
        invariant
            ki <= kept@.len(),
            scarcity@.len() == 5,
            forall|c: Color| #[trigger] scarcity@[spec_color_index(c)] == key(c),
            colored_needs@ == spec_sort_by(kept@.take(ki as int), key),
        decreases kept@.len() - ki,
    {
        let c = kept[ki];
        let kc = scarcity[color_index(c)];
        let mut pos: usize = 0;
        let ghost t = colored_needs@;
        proof { assert(t.skip(0) =~= t); }
        while pos < colored_needs.len() && scarcity[color_index(colored_needs[pos])] <= kc
            invariant
                pos <= t.len(),
                t == colored_needs@,
                scarcity@.len() == 5,
                kc == key(c),
                forall|c2: Color| #[trigger] scarcity@[spec_color_index(c2)] == key(c2),
                spec_first_greater(t, c, key) == pos + spec_first_greater(t.skip(pos as int), c, key),
            decreases t.len() - pos,
        {
            proof { assert(t.skip(pos as int).drop_first() =~= t.skip(pos + 1)); }
            pos = pos + 1;
        }
        proof {
            assert(spec_first_greater(t.skip(pos as int), c, key) == 0);
            assert(kept@.take(ki + 1).drop_last() =~= kept@.take(ki as int));
        }
        colored_needs.insert(pos, c);
        ki = ki + 1;
    }
    proof {
        lemma_take_full(kept@);
        assert(colored_needs@ == spec_scarcity_order(s, a1, kept@));
    }

    let ghost sorted = colored_needs@;
    proof {
        assert(target == spec_from_phase2(s, d, rem_gen_total, spec_phase2(s, d, a1, pl1, ex1, sorted)));
    }
    let mut cn: usize = 0;
    proof { assert(sorted.skip(0) =~= sorted); }
    while cn < colored_needs.len()
        invariant
            cn <= sorted.len(),
            sorted == colored_needs@,
            s == sources@,
            d == hand_demand@,
            spec_sources_ok(s, d),
            forall|j: int| 0 <= j < available@.len() ==> (#[trigger] available@[j]) < s.len(),
            excess + spec_avail_mana(s, available@) <= spec_all_mana(s),
            spec_phase2(s, d, available@, tap_plan@, excess as int, sorted.skip(cn as int))
                == spec_phase2(s, d, a1, pl1, ex1, sorted),
            target == spec_from_phase2(s, d, rem_gen_total, spec_phase2(s, d, a1, pl1, ex1, sorted)),
            target == spec_autotap(*cost, *pool, sources@, hand_costs@),
            rem_generic == rem_gen_total,
        decreases sorted.len() - cn,
    {
        proof { assert(sorted.skip(cn as int).drop_first() =~= sorted.skip(cn + 1)); }
        let color = colored_needs[cn];
        let mt = mana_of(color);
        // Find the best available source that can produce this color.
        match best_available(sources, &available, &hand_demand, Want::Produces(mt)) {
            None => {
                proof {
                    assert(spec_phase2(s, d, a1, pl1, ex1, sorted) is None);
                }
                return None;
            },
            Some(pos) => {
                proof { lemma_best_upto(s, available@, d, Want::Produces(mt), available@.len() as int); }
                let src_idx = available[pos];
                let source = &sources[src_idx];
                let ghost src = s[src_idx as int];
                let ghost p = spec_first_making(src.abilities@, mt).unwrap();
                proof { lemma_first_making_range(src.abilities@, mt); }
                let ability_idx = ability_producing(source, mt).unwrap();
                let ap = find_ability(source, ability_idx);
                proof {
                    lemma_index_pos_found(src.abilities@, ability_idx, ap as int);
                    assert(source.abilities@[ap as int] == spec_named(src.abilities@, p));
                    lemma_ability_le_source(src, ap as int);
                    lemma_avail_remove(s, available@, pos as int);
                    lemma_makes_total_pos(src.abilities@[p], mt);
                    assert(spec_source_wf(src));
                    assert(spec_ability_total(spec_named(src.abilities@, p)) > 0);
                }
                let total_produced = ability_total_mana(&source.abilities[ap]);
                // 1 mana used for the colored pip, rest is excess.
                excess = excess + (total_produced - 1);

                tap_plan.push((source.object_id, ability_idx));
                available.remove(pos);
            },
        }
        cn = cn + 1;
    }
    proof {
        assert(sorted.skip(cn as int) =~= Seq::<Color>::empty());
        assert(spec_phase2(s, d, a1, pl1, ex1, sorted) == Some((available@, tap_plan@, excess as int)));
    }

    // Phase 3: Satisfy generic mana.
    // First use excess from already-tapped sources.
    let ghost rem_gen0 = rem_generic as int;
    if rem_generic > 0 {
        let used = if excess < rem_generic { excess } else { rem_generic };
        rem_generic = rem_generic - used;
    }
    let ghost a2 = available@;
    let ghost pl2 = tap_plan@;
    let ghost g0 = rem_generic as int;
    proof {
        assert(g0 == spec_generic_after_excess(rem_gen0, excess as int));
        assert(target == spec_phase3(s, d, a2, pl2, g0));
    }

    // Then tap more sources as needed, sorted by priority.
    while rem_generic > 0
        invariant
            s == sources@,
            d == hand_demand@,
            spec_sources_ok(s, d),
            forall|j: int| 0 <= j < available@.len() ==> (#[trigger] available@[j]) < s.len(),
            spec_avail_mana(s, available@) <= spec_all_mana(s),
            spec_phase3(s, d, available@, tap_plan@, rem_generic as int) == spec_phase3(s, d, a2, pl2, g0),
            target == spec_phase3(s, d, a2, pl2, g0),
            target == spec_autotap(*cost, *pool, sources@, hand_costs@),
        decreases available@.len(),
    {
        match best_available(sources, &available, &hand_demand, Want::Anything) {
            None => {
                proof {
                    assert(spec_phase3(s, d, a2, pl2, g0) is None);
                }
                return None;
            },
            Some(pos) => {
                proof { lemma_best_upto(s, available@, d, Want::Anything, available@.len() as int); }
                let src_idx = available[pos];
                let source = &sources[src_idx];
                let ghost src = s[src_idx as int];
                proof {
                    assert(spec_demand_score(s[src_idx as int], d) <= u32::MAX);
                }
                if source.abilities.len() == 0 {
                    proof {
                        assert(spec_phase3(s, d, a2, pl2, g0) is None);
                    }
                    return None;
                }
                // Pick the ability to activate: the one whose colors the
                // other spells in hand need least.
                let mp = min_demand_ability(source, &hand_demand);
                let ability_idx = source.abilities[mp].ability_index;
                let ap = find_ability(source, ability_idx);
                proof {
                    lemma_index_pos_found(src.abilities@, ability_idx, ap as int);
                    assert(source.abilities@[ap as int] == spec_named(src.abilities@, mp as int));
                    lemma_ability_le_source(src, ap as int);
                    lemma_avail_remove(s, available@, pos as int);
                }
                let total_produced = ability_total_mana(&source.abilities[ap]);

                let used = if total_produced < rem_generic { total_produced } else { rem_generic };
                rem_generic = rem_generic - used;

                tap_plan.push((source.object_id, ability_idx));
                available.remove(pos);
            },
        }
    }
    Some(tap_plan)
}

// ===== Paying from a pool =====

/// Pay the colored pips of `syms`, front to back, one mana of the pip's color
/// each. Stops at the first pip whose color the pool has none of; the pool
/// is returned as it stood at that point.
pub open spec fn spec_pay_colored(pool: ManaPool, syms: Seq<ManaSymbol>) -> (ManaPool, bool)
    decreases syms.len(),
{
    if syms.len() == 0 {
        (pool, true)
    } else {
        match syms[0] {
            ManaSymbol::Colored(c) => {
                let mt = spec_mana_of(c);
                if pool.amount(mt) == 0 {
                    (pool, false)
                } else {
                    spec_pay_colored(pool.with(mt, (pool.amount(mt) - 1) as u32), syms.drop_first())
                }
            },
            _ => spec_pay_colored(pool, syms.drop_first()),
        }
    }
}

/// The order generic mana is taken in: colorless first, then WUBRG.
pub open spec fn spec_generic_order() -> Seq<ManaType> {
    seq![
        ManaType::Colorless,
        ManaType::White,
        ManaType::Blue,
        ManaType::Black,
        ManaType::Red,
        ManaType::Green,
    ]
}

/// Take `remaining` generic mana from the pool, each type in `types` giving
/// as much as it has until nothing remains. Returns the pool and what is
/// still unpaid.
pub open spec fn spec_pay_generic(pool: ManaPool, remaining: int, types: Seq<ManaType>) -> (ManaPool, int)
    decreases types.len(),
{
    if types.len() == 0 || remaining <= 0 {
        (pool, remaining)
    } else {
        let mt = types[0];
        let avail = pool.amount(mt) as int;
        let used = if avail < remaining { avail } else { remaining };
        spec_pay_generic(pool.with(mt, (avail - used) as u32), remaining - used, types.drop_first())
    }
}

/// What paying `cost` from `pool` does: colored pips first, then the `{C}`
/// part, then the generic part from whatever is left (colorless first, then
/// WUBRG). Returns the pool afterwards and whether the payment succeeded. A
/// failed payment leaves the pool as it stood when the shortfall was found.
pub open spec fn spec_auto_pay(pool: ManaPool, cost: ManaCost) -> (ManaPool, bool) {
    let (p1, ok1) = spec_pay_colored(pool, cost.symbols@);
    let cl = spec_colorless_sum(cost.symbols@);
    let gen = spec_generic_sum(cost.symbols@);
    if !ok1 {
        (p1, false)
    } else if cl > 0 && p1.amount(ManaType::Colorless) < cl {
        (p1, false)
    } else {
        let p2 = if cl > 0 {
            p1.with(ManaType::Colorless, (p1.amount(ManaType::Colorless) - cl) as u32)
        } else {
            p1
        };
        if gen > 0 && p2.spec_total() < gen {
            (p2, false)
        } else if gen > 0 {
            let (p3, rem) = spec_pay_generic(p2, gen, spec_generic_order());
            (p3, rem <= 0)
        } else {
            (p2, true)
        }
    }
}


// ===== Laws of payment =====

proof fn lemma_pay_colored_lowers(pool: ManaPool, syms: Seq<ManaSymbol>)
    ensures
        forall|mt: ManaType| #[trigger] spec_pay_colored(pool, syms).0.amount(mt) <= pool.amount(mt),
    decreases syms.len(),
{
    if syms.len() > 0 {
        match syms[0] {
            ManaSymbol::Colored(c) => {
                let mt = spec_mana_of(c);
                if pool.amount(mt) > 0 {
                    let p1 = pool.with(mt, (pool.amount(mt) - 1) as u32);
                    lemma_pay_colored_lowers(p1, syms.drop_first());
                    assert forall|m: ManaType| #[trigger] spec_pay_colored(pool, syms).0.amount(m) <= pool.amount(m) by {
                        assert(spec_pay_colored(pool, syms) == spec_pay_colored(p1, syms.drop_first()));
                        assert(spec_pay_colored(p1, syms.drop_first()).0.amount(m) <= p1.amount(m));
                        assert(p1.amount(m) <= pool.amount(m));
                    }
                }
            },
            _ => {
                lemma_pay_colored_lowers(pool, syms.drop_first());
                assert forall|m: ManaType| #[trigger] spec_pay_colored(pool, syms).0.amount(m) <= pool.amount(m) by {
                    assert(spec_pay_colored(pool, syms) == spec_pay_colored(pool, syms.drop_first()));
                }
            },
        }
    }
}

proof fn lemma_pay_generic_lowers(pool: ManaPool, remaining: int, types: Seq<ManaType>)
    ensures
        forall|mt: ManaType| #[trigger] spec_pay_generic(pool, remaining, types).0.amount(mt) <= pool.amount(mt),
    decreases types.len(),
{
    if types.len() > 0 && remaining > 0 {
        let mt = types[0];
        let avail = pool.amount(mt) as int;
        let used = if avail < remaining { avail } else { remaining };
        let p1 = pool.with(mt, (avail - used) as u32);
        lemma_pay_generic_lowers(p1, remaining - used, types.drop_first());
        assert forall|m: ManaType| #[trigger] spec_pay_generic(pool, remaining, types).0.amount(m) <= pool.amount(m) by {
            assert(spec_pay_generic(pool, remaining, types) == spec_pay_generic(p1, remaining - used, types.drop_first()));
            assert(spec_pay_generic(p1, remaining - used, types.drop_first()).0.amount(m) <= p1.amount(m));
            assert(p1.amount(m) <= pool.amount(m));
        }
    }
}

/// Paying a cost from a pool, whether it succeeds or fails, never raises
/// the amount of any type of mana.
pub proof fn law_auto_pay_never_adds(pool: ManaPool, cost: ManaCost)
    ensures
        forall|mt: ManaType| #[trigger] spec_auto_pay(pool, cost).0.amount(mt) <= pool.amount(mt),
{
    let (p1, ok1) = spec_pay_colored(pool, cost.symbols@);
    lemma_pay_colored_lowers(pool, cost.symbols@);
    let cl = spec_colorless_sum(cost.symbols@);
    let p2 = if cl > 0 && p1.amount(ManaType::Colorless) >= cl {
        p1.with(ManaType::Colorless, (p1.amount(ManaType::Colorless) - cl) as u32)
    } else {
        p1
    };
    assert forall|m: ManaType| #[trigger] p2.amount(m) <= pool.amount(m) by {
        assert(p1.amount(m) <= pool.amount(m));
    }
    lemma_pay_generic_lowers(p2, spec_generic_sum(cost.symbols@), spec_generic_order());
    assert forall|m: ManaType| #[trigger] spec_auto_pay(pool, cost).0.amount(m) <= pool.amount(m) by {
        assert(p2.amount(m) <= pool.amount(m));
        assert(spec_pay_generic(p2, spec_generic_sum(cost.symbols@), spec_generic_order()).0.amount(m) <= p2.amount(m));
    }
}

/// How many colored pips a cost has in all.
pub open spec fn spec_colored_count(syms: Seq<ManaSymbol>) -> int {
    spec_pips(syms, Color::White) + spec_pips(syms, Color::Blue) + spec_pips(syms, Color::Black)
        + spec_pips(syms, Color::Red) + spec_pips(syms, Color::Green)
}

/// The pool holds enough to pay the cost: every color covers its pips, the
/// colorless mana covers the `{C}` part, and what is left over covers the
/// generic part.
pub open spec fn spec_enough(pool: ManaPool, cost: ManaCost) -> bool {
    let syms = cost.symbols@;
    &&& forall|c: Color| #[trigger] pool.amount(spec_mana_of(c)) >= spec_pips(syms, c)
    &&& pool.amount(ManaType::Colorless) >= spec_colorless_sum(syms)
    &&& pool.spec_total() - spec_colored_count(syms) - spec_colorless_sum(syms) >= spec_generic_sum(syms)
}

proof fn lemma_pips_nonneg(syms: Seq<ManaSymbol>, c: Color)
    ensures
        spec_pips(syms, c) >= 0,
    decreases syms.len(),
{
    if syms.len() > 0 {
        lemma_pips_nonneg(syms.drop_first(), c);
    }
}

/// Paying the colored pips succeeds exactly when every color covers its
/// pips, and then takes exactly the pips from each color.
proof fn lemma_pay_colored(pool: ManaPool, syms: Seq<ManaSymbol>)
    ensures
        spec_pay_colored(pool, syms).1 <==> (forall|c: Color| #[trigger] pool.amount(spec_mana_of(c)) >= spec_pips(syms, c)),
        spec_pay_colored(pool, syms).1 ==> {
            &&& forall|c: Color| #[trigger] spec_pay_colored(pool, syms).0.amount(spec_mana_of(c)) == pool.amount(spec_mana_of(c)) - spec_pips(syms, c)
            &&& spec_pay_colored(pool, syms).0.amount(ManaType::Colorless) == pool.amount(ManaType::Colorless)
            &&& spec_pay_colored(pool, syms).0.spec_total() == pool.spec_total() - spec_colored_count(syms)
        },
    decreases syms.len(),
{
    if syms.len() == 0 {
    } else {
        let rest = syms.drop_first();
        assert forall|c: Color| spec_pips(syms, c) == (if syms[0] == ManaSymbol::Colored(c) { 1int } else { 0 }) + spec_pips(rest, c) by {}
        match syms[0] {
            ManaSymbol::Colored(c0) => {
                let mt = spec_mana_of(c0);
                lemma_pips_nonneg(rest, c0);
                if pool.amount(mt) == 0 {
                    assert(!(pool.amount(spec_mana_of(c0)) >= spec_pips(syms, c0)));
                } else {
                    let p1 = pool.with(mt, (pool.amount(mt) - 1) as u32);
                    lemma_pay_colored(p1, rest);
                    assert forall|c: Color| p1.amount(spec_mana_of(c)) == pool.amount(spec_mana_of(c)) - (if c == c0 { 1int } else { 0 }) by {}
                }
            },
            _ => {
                lemma_pay_colored(pool, rest);
            },
        }
    }
}

/// The sum of the amounts of some mana types.
pub open spec fn spec_amounts(pool: ManaPool, types: Seq<ManaType>) -> int
    decreases types.len(),
{
    if types.len() == 0 {
        0
    } else {
        pool.amount(types[0]) + spec_amounts(pool, types.drop_first())
    }
}

proof fn lemma_amounts_other(pool: ManaPool, types: Seq<ManaType>, mt: ManaType, n: u32)
    requires
        !types.contains(mt),
    ensures
        spec_amounts(pool.with(mt, n), types) == spec_amounts(pool, types),
    decreases types.len(),
{
    if types.len() > 0 {
        assert(!types.drop_first().contains(mt)) by {
            if types.drop_first().contains(mt) {
                let i = choose|i: int| 0 <= i < types.drop_first().len() && types.drop_first()[i] == mt;
                assert(types[i + 1] == mt);
            }
        }
        assert(types[0] != mt) by {
            assert(types[0] == types[0]);
            if types[0] == mt {
                assert(types.contains(mt));
            }
        }
        lemma_amounts_other(pool, types.drop_first(), mt, n);
    }
}

/// Taking generic mana from distinct types leaves unpaid exactly what they
/// could not cover, and takes from the pool exactly what was paid.
proof fn lemma_pay_generic(pool: ManaPool, remaining: int, types: Seq<ManaType>)
    requires
        remaining >= 0,
        types.no_duplicates(),
    ensures
        spec_pay_generic(pool, remaining, types).1 == (if remaining > spec_amounts(pool, types) { remaining - spec_amounts(pool, types) } else { 0 }),
        spec_pay_generic(pool, remaining, types).0.spec_total() == pool.spec_total() - (remaining - spec_pay_generic(pool, remaining, types).1),
    decreases types.len(),
{
    if types.len() == 0 {
    } else if remaining == 0 {
        lemma_amounts_nonneg(pool, types);
    } else {
        let mt = types[0];
        let avail = pool.amount(mt) as int;
        let used = if avail < remaining { avail } else { remaining };
        let p1 = pool.with(mt, (avail - used) as u32);
        let rest = types.drop_first();
        assert(rest.no_duplicates());
        assert(!rest.contains(mt)) by {
            if rest.contains(mt) {
                let i = choose|i: int| 0 <= i < rest.len() && rest[i] == mt;
                assert(types[i + 1] == types[0]);
            }
        }
        lemma_amounts_other(pool, rest, mt, (avail - used) as u32);
        lemma_pay_generic(p1, remaining - used, rest);
    }
}

proof fn lemma_amounts_nonneg(pool: ManaPool, types: Seq<ManaType>)
    ensures
        spec_amounts(pool, types) >= 0,
    decreases types.len(),
{
    if types.len() > 0 {
        lemma_amounts_nonneg(pool, types.drop_first());
    }
}

/// Paying a cost from a pool succeeds exactly when the pool holds enough
/// for it; and a successful payment takes from the pool exactly the cost's
/// mana value.
pub proof fn lemma_auto_pay_exact(pool: ManaPool, cost: ManaCost)
    requires
        cost.wf(),
    ensures
        spec_auto_pay(pool, cost).1 <==> spec_enough(pool, cost),
        spec_auto_pay(pool, cost).1 ==> spec_auto_pay(pool, cost).0.spec_total() == pool.spec_total()
            - spec_colored_count(cost.symbols@) - spec_colorless_sum(cost.symbols@) - spec_generic_sum(cost.symbols@),
{
    let syms = cost.symbols@;
    lemma_pay_colored(pool, syms);
    let (p1, ok1) = spec_pay_colored(pool, syms);
    crate::types::lemma_colorless_sum_nonneg(syms);
    crate::types::lemma_generic_sum_nonneg(syms);
    let cl = spec_colorless_sum(syms);
    let gen = spec_generic_sum(syms);
    if ok1 {
        let p2 = if cl > 0 {
            p1.with(ManaType::Colorless, (p1.amount(ManaType::Colorless) - cl) as u32)
        } else {
            p1
        };
        let order = spec_generic_order();
        assert(order.no_duplicates()) by {
            assert forall|i: int, j: int| 0 <= i < order.len() && 0 <= j < order.len() && i != j implies order[i] != order[j] by {}
        }
        assert(spec_amounts(p2, order) == p2.spec_total()) by {
            reveal_with_fuel(spec_amounts, 7);
        }
        if gen > 0 {
            lemma_pay_generic(p2, gen, order);
        }
    }
}

/// Check if a mana pool can pay a given cost.
pub fn can_pay(pool: &ManaPool, cost: &ManaCost) -> (b: bool)
    requires
        cost.wf(),
    ensures
        b == spec_auto_pay(*pool, *cost).1,
{
    let mut sim = *pool;
    try_auto_pay(&mut sim, cost).is_ok()
}

/// Automatically pay a mana cost from a pool.
/// Deducts the mana and returns Ok, or returns Err if insufficient.
///
/// Strategy: pay colored requirements first, then colorless requirements,
/// then generic from whatever remains.
pub fn auto_pay(pool: &mut ManaPool, cost: &ManaCost) -> (r: Result<(), ManaError>)
    requires
        cost.wf(),
    ensures
        (*final(pool), r is Ok) == spec_auto_pay(*old(pool), *cost),
{
    try_auto_pay(pool, cost)
}

fn try_auto_pay(pool: &mut ManaPool, cost: &ManaCost) -> (r: Result<(), ManaError>)
    requires
        cost.wf(),
    ensures
        (*final(pool), r is Ok) == spec_auto_pay(*old(pool), *cost),
{
    let ghost p0 = *old(pool);
    let ghost syms = cost.symbols@;
    // 1. Pay colored requirements.
    proof {
        assert(syms.skip(0) =~= syms);
    }
    let mut i: usize = 0;
    while i < cost.symbols.len()
        invariant
            i <= syms.len(),
            syms == cost.symbols@,
            p0 == *old(pool),
            spec_pay_colored(*pool, syms.skip(i as int)) == spec_pay_colored(p0, syms),
        decreases syms.len() - i,
    {
        proof {
            assert(syms.skip(i as int).drop_first() =~= syms.skip(i + 1));
        }
        if let ManaSymbol::Colored(color) = cost.symbols[i] {
            let mana_type = mana_of(color);
            let available = pool.get(mana_type);
            if available == 0 {
                proof {
                    assert(spec_pay_colored(*pool, syms.skip(i as int)) == (*pool, false));
                    assert(spec_pay_colored(p0, syms).1 == false);
                    assert(spec_auto_pay(p0, *cost) == (*pool, false));
                }
                return Err(ManaError::InsufficientMana);
            }
            pool.set(mana_type, available - 1);
        }
        i = i + 1;
    }
    proof {
        assert(syms.skip(i as int).len() == 0);
    }

    // 2. Pay specifically colorless requirements.
    let colorless_needed = cost.colorless_amount();
    if colorless_needed > 0 {
        let available = pool.get(ManaType::Colorless);
        if available < colorless_needed {
            return Err(ManaError::InsufficientMana);
        }
        pool.set(ManaType::Colorless, available - colorless_needed);
    }

    // 3. Pay generic costs from whatever is left.
    let generic_needed = cost.generic_amount();
    if generic_needed > 0 {
        let total_remaining = pool.total();
        if total_remaining < generic_needed as u64 {
            return Err(ManaError::InsufficientMana);
        }
        let ghost p2 = *pool;
        let mut remaining = generic_needed;
        // Pay from colorless first, then from each color.
        let types = [
            ManaType::Colorless,
            ManaType::White,
            ManaType::Blue,
            ManaType::Black,
            ManaType::Red,
            ManaType::Green,
        ];
        proof {
            assert(types@.skip(0) =~= types@);
        }
        let mut k: usize = 0;
        while k < 6 && remaining > 0
            invariant
                k <= 6,
                types@ == spec_generic_order(),
                spec_pay_generic(*pool, remaining as int, types@.skip(k as int))
                    == spec_pay_generic(p2, generic_needed as int, spec_generic_order()),
            decreases 6 - k,
        {
            proof {
                assert(types@.skip(k as int).drop_first() =~= types@.skip(k + 1));
            }
            let mt = types[k];
            let available = pool.get(mt);
            let to_use = if available < remaining { available } else { remaining };
            if to_use > 0 {
                pool.set(mt, available - to_use);
                remaining = remaining - to_use;
            }
            k = k + 1;
        }
        proof {
            assert(spec_pay_generic(*pool, remaining as int, types@.skip(k as int)) == (*pool, remaining as int));
            assert(spec_pay_generic(p2, generic_needed as int, spec_generic_order()) == (*pool, remaining as int));
        }
        if remaining > 0 {
            return Err(ManaError::InsufficientMana);
        }
    }
    Ok(())
}


/// The plan entry taps one of the source's own abilities.
#[verifier::opaque]
pub open spec fn taps_ability(src: ManaSource, entry: (ObjectId, usize)) -> bool {
    entry.0 == src.object_id && exists|a: int| 0 <= a < src.abilities@.len() && src.abilities@[a].ability_index == entry.1
}

/// The plan taps the sources at positions `taken`, each once, each for one
/// of its abilities.
pub open spec fn taken_ok(s: Seq<ManaSource>, plan: Seq<(ObjectId, usize)>, taken: Seq<usize>) -> bool {
    &&& taken.len() == plan.len()
    &&& forall|j: int| 0 <= j < taken.len() ==> #[trigger] taken_entry(s, plan, taken, j)
    &&& forall|i: int, j: int| 0 <= i < j < taken.len() ==> taken[i] != taken[j]
}

/// Plan entry `j` taps the source at `taken[j]` for one of its abilities.
pub open spec fn taken_entry(s: Seq<ManaSource>, plan: Seq<(ObjectId, usize)>, taken: Seq<usize>, j: int) -> bool {
    (taken[j] as int) < s.len() && taps_ability(s[taken[j] as int], plan[j])
}

/// The sources still available are positions of sources, each once, none
/// of them tapped already.
pub open spec fn plan_from(s: Seq<ManaSource>, avail: Seq<usize>, plan: Seq<(ObjectId, usize)>, taken: Seq<usize>) -> bool {
    &&& forall|i: int| 0 <= i < avail.len() ==> (avail[i] as int) < s.len()
    &&& forall|i: int, j: int| 0 <= i < j < avail.len() ==> avail[i] != avail[j]
    &&& taken_ok(s, plan, taken)
    &&& forall|i: int, j: int| 0 <= i < avail.len() && 0 <= j < taken.len() ==> avail[i] != taken[j]
}

proof fn lemma_first_making_in(abs: Seq<ManaAbilityDef>, mt: ManaType)
    ensures
        spec_first_making(abs, mt) matches Some(p) ==> 0 <= p < abs.len(),
    decreases abs.len(),
{
    if abs.len() > 0 {
        lemma_first_making_in(abs.drop_first(), mt);
    }
}

/// One more source tapped, not tapped before, for one of its abilities.
proof fn lemma_taken_push(s: Seq<ManaSource>, plan: Seq<(ObjectId, usize)>, taken: Seq<usize>, x: usize, e: (ObjectId, usize))
    requires
        taken_ok(s, plan, taken),
        (x as int) < s.len(),
        taps_ability(s[x as int], e),
        forall|i: int| 0 <= i < taken.len() ==> taken[i] != x,
    ensures
        taken_ok(s, plan.push(e), taken.push(x)),
{
    let p2 = plan.push(e);
    let t2 = taken.push(x);
    assert forall|j: int| 0 <= j < t2.len() implies #[trigger] taken_entry(s, p2, t2, j) by {
        if j < taken.len() {
            assert(t2[j] == taken[j] && p2[j] == plan[j]);
            assert(taken_entry(s, plan, taken, j));
        } else {
            assert(t2[j] == x && p2[j] == e);
        }
    }
    assert forall|i: int, j: int| 0 <= i < j < t2.len() implies t2[i] != t2[j] by {
        assert(t2[i] == taken[i]);
        if j < taken.len() {
            assert(t2[j] == taken[j]);
        }
    }
}

/// Tapping the available source at `pos` for its ability at `ap` keeps the
/// plan drawn from the sources.
proof fn lemma_take(s: Seq<ManaSource>, avail: Seq<usize>, plan: Seq<(ObjectId, usize)>, taken: Seq<usize>, pos: int, ap: int)
    requires
        plan_from(s, avail, plan, taken),
        0 <= pos < avail.len(),
        0 <= ap < s[avail[pos] as int].abilities@.len(),
    ensures
        plan_from(s, avail.remove(pos),
            plan.push((s[avail[pos] as int].object_id, s[avail[pos] as int].abilities@[ap].ability_index)),
            taken.push(avail[pos])),
{
    let src = s[avail[pos] as int];
    let a2 = avail.remove(pos);
    let p2 = plan.push((src.object_id, src.abilities@[ap].ability_index));
    let t2 = taken.push(avail[pos]);
    assert forall|i: int| 0 <= i < a2.len() implies (a2[i] as int) < s.len() by {
        if i < pos { assert(a2[i] == avail[i]); } else { assert(a2[i] == avail[i + 1]); }
    }
    assert forall|i: int, j: int| 0 <= i < j < a2.len() implies a2[i] != a2[j] by {
        let i0 = if i < pos { i } else { i + 1 };
        let j0 = if j < pos { j } else { j + 1 };
        assert(a2[i] == avail[i0] && a2[j] == avail[j0]);
    }
    assert(taps_ability(src, (src.object_id, src.abilities@[ap].ability_index))) by {
        reveal(taps_ability);
    }
    assert forall|i: int| 0 <= i < taken.len() implies taken[i] != avail[pos] by {}
    lemma_taken_push(s, plan, taken, avail[pos], (src.object_id, src.abilities@[ap].ability_index));
    assert forall|i: int, j: int| 0 <= i < a2.len() && 0 <= j < t2.len() implies a2[i] != t2[j] by {
        let i0 = if i < pos { i } else { i + 1 };
        assert(a2[i] == avail[i0]);
        if j == taken.len() {
            assert(i0 != pos);
            assert(t2[j] == avail[pos]);
        } else {
            assert(t2[j] == taken[j]);
        }
    }
    assert(taken_ok(s, p2, t2));
}

proof fn lemma_phase1_from(s: Seq<ManaSource>, d: Seq<u32>, avail: Seq<usize>, plan: Seq<(ObjectId, usize)>,
    excess: int, rem: int, taken: Seq<usize>) -> (t2: Seq<usize>)
    requires
        plan_from(s, avail, plan, taken),
    ensures
        spec_phase1(s, d, avail, plan, excess, rem) matches Some(r) ==> plan_from(s, r.0, r.1, t2),
    decreases avail.len(),
{
    if rem <= 0 {
        taken
    } else {
        match spec_best(s, avail, d, Want::Produces(ManaType::Colorless)) {
            None => taken,
            Some(pos) => if !(0 <= pos < avail.len()) {
                taken
            } else {
                let src = s[avail[pos] as int];
                lemma_first_making_in(src.abilities@, ManaType::Colorless);
                match spec_first_making(src.abilities@, ManaType::Colorless) {
                    None => taken,
                    Some(ap) => {
                        let ab = spec_named(src.abilities@, ap);
                        let made = spec_colorless_made(ab);
                        let used = if made < rem { made } else { rem };
                        lemma_take(s, avail, plan, taken, pos, ap);
                        lemma_phase1_from(s, d, avail.remove(pos), plan.push((src.object_id, src.abilities@[ap].ability_index)),
                            excess + spec_ability_total(ab) - used, rem - used, taken.push(avail[pos]))
                    },
                }
            },
        }
    }
}

proof fn lemma_phase2_from(s: Seq<ManaSource>, d: Seq<u32>, avail: Seq<usize>, plan: Seq<(ObjectId, usize)>,
    excess: int, colors: Seq<Color>, taken: Seq<usize>) -> (t2: Seq<usize>)
    requires
        plan_from(s, avail, plan, taken),
    ensures
        spec_phase2(s, d, avail, plan, excess, colors) matches Some(r) ==> plan_from(s, r.0, r.1, t2),
    decreases colors.len(),
{
    if colors.len() == 0 {
        taken
    } else {
        let mt = spec_mana_of(colors[0]);
        match spec_best(s, avail, d, Want::Produces(mt)) {
            None => taken,
            Some(pos) => if !(0 <= pos < avail.len()) {
                taken
            } else {
                let src = s[avail[pos] as int];
                lemma_first_making_in(src.abilities@, mt);
                match spec_first_making(src.abilities@, mt) {
                    None => taken,
                    Some(ap) => {
                        let ab = spec_named(src.abilities@, ap);
                        lemma_take(s, avail, plan, taken, pos, ap);
                        lemma_phase2_from(s, d, avail.remove(pos), plan.push((src.object_id, src.abilities@[ap].ability_index)),
                            excess + spec_ability_total(ab) - 1, colors.drop_first(), taken.push(avail[pos]))
                    },
                }
            },
        }
    }
}

proof fn lemma_phase3_from(s: Seq<ManaSource>, d: Seq<u32>, avail: Seq<usize>, plan: Seq<(ObjectId, usize)>,
    rem: int, taken: Seq<usize>) -> (t2: Seq<usize>)
    requires
        plan_from(s, avail, plan, taken),
    ensures
        spec_phase3(s, d, avail, plan, rem) matches Some(p) ==> taken_ok(s, p, t2),
    decreases avail.len(),
{
    if rem <= 0 {
        taken
    } else {
        match spec_best(s, avail, d, Want::Anything) {
            None => taken,
            Some(pos) => if !(0 <= pos < avail.len()) {
                taken
            } else {
                let src = s[avail[pos] as int];
                lemma_min_demand_upto(src.abilities@, d, src.abilities@.len() as int);
                match spec_min_demand_upto(src.abilities@, d, src.abilities@.len() as int) {
                    None => taken,
                    Some(ap) => {
                        let ab = spec_named(src.abilities@, ap);
                        let t = spec_ability_total(ab);
                        let used = if t < rem { t } else { rem };
                        lemma_take(s, avail, plan, taken, pos, ap);
                        lemma_phase3_from(s, d, avail.remove(pos), plan.push((src.object_id, src.abilities@[ap].ability_index)),
                            rem - used, taken.push(avail[pos]))
                    },
                }
            },
        }
    }
}

/// An autotap plan only taps the sources it was given, each source at most
/// once and each for one of its own abilities.
pub proof fn lemma_autotap_from_sources(cost: ManaCost, pool: ManaPool, s: Seq<ManaSource>, hand: Seq<ManaCost>)
    requires
        s.len() <= usize::MAX,
    ensures
        spec_autotap(cost, pool, s, hand) matches Some(plan) ==> exists|t: Seq<usize>| #[trigger] taken_ok(s, plan, t),
{
    let syms = cost.symbols@;
    let empty_plan = Seq::<(ObjectId, usize)>::empty();
    let empty_taken = Seq::<usize>::empty();
    assert(taken_ok(s, empty_plan, empty_taken));
    if spec_has_x(syms) || syms.len() == 0 {
        assert(spec_autotap(cost, pool, s, hand) matches Some(plan) ==> taken_ok(s, plan, empty_taken));
        return;
    }
    let (p1, colored) = spec_keep_unpaid(pool, spec_colored(syms));
    let cl0 = spec_colorless_sum(syms);
    let avail_c = p1.amount(ManaType::Colorless) as int;
    let ded = if avail_c < cl0 { avail_c } else { cl0 };
    let p2 = p1.with(ManaType::Colorless, (avail_c - ded) as u32);
    let rem_gen = spec_pay_generic(p2, spec_generic_sum(syms), spec_generic_order()).1;
    let d = spec_demand_table(hand);
    if colored.len() == 0 && cl0 - ded == 0 && rem_gen <= 0 {
        assert(spec_autotap(cost, pool, s, hand) == Some(empty_plan));
        assert(spec_autotap(cost, pool, s, hand) matches Some(plan) ==> taken_ok(s, plan, empty_taken));
        return;
    }
    let all = spec_all_available(s);
    assert(plan_from(s, all, empty_plan, empty_taken));
    let t1 = lemma_phase1_from(s, d, all, empty_plan, 0, cl0 - ded, empty_taken);
    match spec_phase1(s, d, all, empty_plan, 0, cl0 - ded) {
        None => {},
        Some((a1, pl1, ex1)) => {
            let order = spec_scarcity_order(s, a1, colored);
            let t2 = lemma_phase2_from(s, d, a1, pl1, ex1, order, t1);
            match spec_phase2(s, d, a1, pl1, ex1, order) {
                None => {},
                Some((a2, pl2, ex2)) => {
                    let t3 = lemma_phase3_from(s, d, a2, pl2, spec_generic_after_excess(rem_gen, ex2), t2);
                    match spec_autotap(cost, pool, s, hand) {
                        Some(plan) => { assert(taken_ok(s, plan, t3)); },
                        None => {},
                    }
                },
            }
        },
    }
}

// ===== What an autotap plan pays =====

/// The source has one mana ability, which adds one type of mana.
pub open spec fn spec_single_kind(src: ManaSource) -> bool {
    src.abilities@.len() == 1 && src.abilities@[0].produced@.len() == 1
}

/// The mana that tapping a one-ability source adds.
pub open spec fn spec_tap_mana(src: ManaSource) -> int {
    src.abilities@[0].produced@[0].1 as int
}

/// The mana of type `mt` that tapping a one-ability source adds.
pub open spec fn spec_tap_of(src: ManaSource, mt: ManaType) -> int {
    if src.abilities@[0].produced@[0].0 == mt { src.abilities@[0].produced@[0].1 as int } else { 0 }
}

/// The mana that tapping the sources at positions `t` adds.
pub open spec fn spec_taps_mana(s: Seq<ManaSource>, t: Seq<usize>) -> int
    decreases t.len(),
{
    if t.len() == 0 {
        0
    } else {
        spec_taps_mana(s, t.drop_last()) + spec_tap_mana(s[t.last() as int])
    }
}

/// The mana of type `mt` that tapping the sources at positions `t` adds.
pub open spec fn spec_taps_of(s: Seq<ManaSource>, t: Seq<usize>, mt: ManaType) -> int
    decreases t.len(),
{
    if t.len() == 0 {
        0
    } else {
        spec_taps_of(s, t.drop_last(), mt) + spec_tap_of(s[t.last() as int], mt)
    }
}

/// How many of the sources at positions `t` add a positive amount of `mt`.
pub open spec fn spec_taps_count(s: Seq<ManaSource>, t: Seq<usize>, mt: ManaType) -> int
    decreases t.len(),
{
    if t.len() == 0 {
        0
    } else {
        spec_taps_count(s, t.drop_last(), mt) + if spec_tap_of(s[t.last() as int], mt) > 0 { 1int } else { 0 }
    }
}

/// The floating mana and the mana of the taps at `t` together cover the
/// cost: each color its pips, colorless mana the `{C}` part, and what is
/// left over the generic part.
pub open spec fn spec_enough_with(pool: ManaPool, s: Seq<ManaSource>, t: Seq<usize>, cost: ManaCost) -> bool {
    let syms = cost.symbols@;
    &&& forall|c: Color| pool.amount(spec_mana_of(c)) + #[trigger] spec_taps_of(s, t, spec_mana_of(c)) >= spec_pips(syms, c)
    &&& pool.amount(ManaType::Colorless) + spec_taps_of(s, t, ManaType::Colorless) >= spec_colorless_sum(syms)
    &&& pool.spec_total() + spec_taps_mana(s, t) - spec_colored_count(syms) - spec_colorless_sum(syms) >= spec_generic_sum(syms)
}

/// How many times the color occurs.
pub open spec fn spec_color_count(cs: Seq<Color>, c: Color) -> int
    decreases cs.len(),
{
    if cs.len() == 0 {
        0
    } else {
        (if cs[0] == c { 1int } else { 0 }) + spec_color_count(cs.drop_first(), c)
    }
}

/// What the one ability of a one-kind source adds, and how the search
/// sees it.
proof fn lemma_single_amounts(src: ManaSource)
    requires
        spec_single_kind(src),
    ensures
        spec_ability_total(src.abilities@[0]) == spec_tap_mana(src),
        spec_colorless_made(src.abilities@[0]) == spec_tap_of(src, ManaType::Colorless),
        forall|mt: ManaType| #[trigger] spec_first_making(src.abilities@, mt)
            == (if spec_tap_of(src, mt) > 0 { Some(0int) } else { None }),
        spec_named(src.abilities@, 0) == src.abilities@[0],
        forall|mt: ManaType| 0 <= #[trigger] spec_tap_of(src, mt) <= spec_tap_mana(src),
{
    let a = src.abilities@[0];
    let v = a.produced@.map_values(|e: (ManaType, u32)| e.1 as int);
    assert(sum_of(v.drop_last()) == 0);
    let w = a.produced@.map_values(|e: (ManaType, u32)| if e.0 == ManaType::Colorless { e.1 as int } else { 0 });
    assert(sum_of(w.drop_last()) == 0);
    assert forall|mt: ManaType| #[trigger] spec_first_making(src.abilities@, mt)
        == (if spec_tap_of(src, mt) > 0 { Some(0int) } else { None }) by {
        assert(spec_first_making(src.abilities@.drop_first(), mt) is None);
        if spec_tap_of(src, mt) > 0 {
            assert(a.produced@[0].0 == mt && a.produced@[0].1 > 0);
            assert(spec_ability_makes(a, mt));
        } else {
            assert(!spec_ability_makes(a, mt));
        }
    }
    assert(spec_index_pos(src.abilities@, a.ability_index) == 0);
}

proof fn lemma_taps_push(s: Seq<ManaSource>, t: Seq<usize>, x: usize)
    ensures
        spec_taps_mana(s, t.push(x)) == spec_taps_mana(s, t) + spec_tap_mana(s[x as int]),
        forall|mt: ManaType| #[trigger] spec_taps_of(s, t.push(x), mt) == spec_taps_of(s, t, mt) + spec_tap_of(s[x as int], mt),
{
    assert(t.push(x).drop_last() =~= t);
}

proof fn lemma_taps_remove(s: Seq<ManaSource>, a: Seq<usize>, pos: int)
    requires
        0 <= pos < a.len(),
    ensures
        spec_taps_mana(s, a.remove(pos)) == spec_taps_mana(s, a) - spec_tap_mana(s[a[pos] as int]),
        forall|mt: ManaType| #[trigger] spec_taps_of(s, a.remove(pos), mt) == spec_taps_of(s, a, mt) - spec_tap_of(s[a[pos] as int], mt),
        forall|mt: ManaType| #[trigger] spec_taps_count(s, a.remove(pos), mt)
            == spec_taps_count(s, a, mt) - if spec_tap_of(s[a[pos] as int], mt) > 0 { 1int } else { 0 },
    decreases a.len(),
{
    if pos == a.len() - 1 {
        assert(a.remove(pos) =~= a.drop_last());
        assert forall|mt: ManaType| #[trigger] spec_taps_of(s, a.remove(pos), mt)
            == spec_taps_of(s, a, mt) - spec_tap_of(s[a[pos] as int], mt) by {
            assert(spec_taps_of(s, a, mt) == spec_taps_of(s, a.drop_last(), mt) + spec_tap_of(s[a.last() as int], mt));
        }
        assert forall|mt: ManaType| #[trigger] spec_taps_count(s, a.remove(pos), mt)
            == spec_taps_count(s, a, mt) - if spec_tap_of(s[a[pos] as int], mt) > 0 { 1int } else { 0 } by {
            assert(spec_taps_count(s, a, mt) == spec_taps_count(s, a.drop_last(), mt)
                + if spec_tap_of(s[a.last() as int], mt) > 0 { 1int } else { 0 });
        }
    } else {
        let r = a.remove(pos);
        assert(r.drop_last() =~= a.drop_last().remove(pos));
        assert(r.last() == a.last());
        lemma_taps_remove(s, a.drop_last(), pos);
        assert forall|mt: ManaType| #[trigger] spec_taps_of(s, a.remove(pos), mt)
            == spec_taps_of(s, a, mt) - spec_tap_of(s[a[pos] as int], mt) by {
            assert(spec_taps_of(s, r, mt) == spec_taps_of(s, r.drop_last(), mt) + spec_tap_of(s[r.last() as int], mt));
            assert(spec_taps_of(s, a, mt) == spec_taps_of(s, a.drop_last(), mt) + spec_tap_of(s[a.last() as int], mt));
            assert(a.drop_last()[pos] == a[pos]);
        }
        assert forall|mt: ManaType| #[trigger] spec_taps_count(s, a.remove(pos), mt)
            == spec_taps_count(s, a, mt) - if spec_tap_of(s[a[pos] as int], mt) > 0 { 1int } else { 0 } by {
            assert(spec_taps_count(s, r, mt) == spec_taps_count(s, r.drop_last(), mt)
                + if spec_tap_of(s[r.last() as int], mt) > 0 { 1int } else { 0 });
            assert(spec_taps_count(s, a, mt) == spec_taps_count(s, a.drop_last(), mt)
                + if spec_tap_of(s[a.last() as int], mt) > 0 { 1int } else { 0 });
            assert(a.drop_last()[pos] == a[pos]);
        }
    }
}

proof fn lemma_taps_nonneg(s: Seq<ManaSource>, t: Seq<usize>)
    ensures
        spec_taps_mana(s, t) >= 0,
        forall|mt: ManaType| 0 <= #[trigger] spec_taps_of(s, t, mt) <= spec_taps_mana(s, t),
    decreases t.len(),
{
    if t.len() > 0 {
        lemma_taps_nonneg(s, t.drop_last());
        assert forall|mt: ManaType| 0 <= #[trigger] spec_taps_of(s, t, mt) <= spec_taps_mana(s, t) by {
            assert(0 <= spec_taps_of(s, t.drop_last(), mt) <= spec_taps_mana(s, t.drop_last()));
        }
    }
}

proof fn lemma_taps_none(s: Seq<ManaSource>, t: Seq<usize>, mt: ManaType)
    requires
        forall|j: int| 0 <= j < t.len() ==> spec_tap_of(#[trigger] s[t[j] as int], mt) == 0,
    ensures
        spec_taps_of(s, t, mt) == 0,
        spec_taps_count(s, t, mt) == 0,
    decreases t.len(),
{
    if t.len() > 0 {
        let d = t.drop_last();
        assert forall|j: int| 0 <= j < d.len() implies spec_tap_of(#[trigger] s[d[j] as int], mt) == 0 by {
            assert(d[j] == t[j]);
        }
        lemma_taps_none(s, d, mt);
        assert(spec_tap_of(s[t[t.len() - 1] as int], mt) == 0);
    }
}

/// Each tap adds one type of mana, and a source counted for a type adds
/// at least one of it.
proof fn lemma_taps_split(s: Seq<ManaSource>, t: Seq<usize>)
    ensures
        spec_taps_mana(s, t) == spec_taps_of(s, t, ManaType::Colorless) + spec_taps_of(s, t, ManaType::White)
            + spec_taps_of(s, t, ManaType::Blue) + spec_taps_of(s, t, ManaType::Black)
            + spec_taps_of(s, t, ManaType::Red) + spec_taps_of(s, t, ManaType::Green),
        forall|mt: ManaType| #[trigger] spec_taps_of(s, t, mt) >= spec_taps_count(s, t, mt) >= 0,
    decreases t.len(),
{
    if t.len() > 0 {
        lemma_taps_split(s, t.drop_last());
        assert forall|mt: ManaType| #[trigger] spec_taps_of(s, t, mt) >= spec_taps_count(s, t, mt) >= 0 by {
            assert(spec_taps_of(s, t.drop_last(), mt) >= spec_taps_count(s, t.drop_last(), mt) >= 0);
        }
    }
}

proof fn lemma_best_upto_none(s: Seq<ManaSource>, avail: Seq<usize>, d: Seq<u32>, w: Want, k: int)
    requires
        spec_best_upto(s, avail, d, w, k) is None,
    ensures
        forall|i: int| 0 <= i < k ==> !spec_wants(#[trigger] s[avail[i] as int], w),
    decreases k,
{
    if k > 0 {
        lemma_best_upto_none(s, avail, d, w, k - 1);
    }
}

proof fn lemma_count_concat(a: Seq<Color>, b: Seq<Color>, c: Color)
    ensures
        spec_color_count(a + b, c) == spec_color_count(a, c) + spec_color_count(b, c),
    decreases a.len(),
{
    if a.len() == 0 {
        assert(a + b =~= b);
    } else {
        assert((a + b).drop_first() =~= a.drop_first() + b);
        assert((a + b)[0] == a[0]);
        lemma_count_concat(a.drop_first(), b, c);
    }
}

proof fn lemma_first_greater_range(t: Seq<Color>, x: Color, key: spec_fn(Color) -> int)
    ensures
        0 <= spec_first_greater(t, x, key) <= t.len(),
    decreases t.len(),
{
    if t.len() > 0 {
        lemma_first_greater_range(t.drop_first(), x, key);
    }
}

proof fn lemma_sort_counts_key(s: Seq<Color>, key: spec_fn(Color) -> int)
    ensures
        spec_sort_by(s, key).len() == s.len(),
        forall|c: Color| #[trigger] spec_color_count(spec_sort_by(s, key), c) == spec_color_count(s, c),
    decreases s.len(),
{
    if s.len() > 0 {
        let d = s.drop_last();
        let x = s.last();
        lemma_sort_counts_key(d, key);
        let t = spec_sort_by(d, key);
        let i = spec_first_greater(t, x, key);
        lemma_first_greater_range(t, x, key);
        let lo = t.subrange(0, i);
        let hi = t.subrange(i, t.len() as int);
        assert(t.insert(i, x) =~= lo + (seq![x] + hi));
        assert(t =~= lo + hi);
        assert(s =~= d + seq![x]);
        assert forall|c: Color| #[trigger] spec_color_count(spec_sort_by(s, key), c) == spec_color_count(s, c) by {
            lemma_count_concat(lo, seq![x] + hi, c);
            lemma_count_concat(seq![x], hi, c);
            lemma_count_concat(lo, hi, c);
            lemma_count_concat(d, seq![x], c);
            assert(seq![x].drop_first().len() == 0);
        }
    }
}

/// Sorting the pips keeps how many of each color there are.
proof fn lemma_sort_counts(s: Seq<Color>)
    ensures
        forall|key: spec_fn(Color) -> int| #[trigger] spec_sort_by(s, key).len() == s.len(),
        forall|key: spec_fn(Color) -> int, c: Color| #[trigger] spec_color_count(spec_sort_by(s, key), c) == spec_color_count(s, c),
{
    assert forall|key: spec_fn(Color) -> int| #[trigger] spec_sort_by(s, key).len() == s.len() by {
        lemma_sort_counts_key(s, key);
    }
    assert forall|key: spec_fn(Color) -> int, c: Color| #[trigger] spec_color_count(spec_sort_by(s, key), c)
        == spec_color_count(s, c) by {
        lemma_sort_counts_key(s, key);
    }
}

/// Floating mana pays the pips of colors it has; what it pays is what it
/// loses, and the pips it cannot pay stay.
proof fn lemma_keep_unpaid_counts(pool: ManaPool, cs: Seq<Color>)
    ensures
        ({
            let (p, rest) = spec_keep_unpaid(pool, cs);
            &&& forall|c: Color| #[trigger] p.amount(spec_mana_of(c)) <= pool.amount(spec_mana_of(c))
                && pool.amount(spec_mana_of(c)) - p.amount(spec_mana_of(c)) + spec_color_count(rest, c) == spec_color_count(cs, c)
            &&& p.amount(ManaType::Colorless) == pool.amount(ManaType::Colorless)
            &&& p.spec_total() == pool.spec_total() - (cs.len() - rest.len())
            &&& forall|c: Color| #[trigger] spec_color_count(rest, c) > 0 ==> p.amount(spec_mana_of(c)) == 0
        }),
    decreases cs.len(),
{
    if cs.len() > 0 {
        let mt = spec_mana_of(cs[0]);
        if pool.amount(mt) > 0 {
            let q = pool.with(mt, (pool.amount(mt) - 1) as u32);
            lemma_keep_unpaid_counts(q, cs.drop_first());
        } else {
            lemma_keep_unpaid_counts(pool, cs.drop_first());
            let (p, r) = spec_keep_unpaid(pool, cs.drop_first());
            let rest = seq![cs[0]] + r;
            assert(rest.drop_first() =~= r);
            assert(rest[0] == cs[0]);
        }
    }
}

/// The pips of a color are the occurrences of that color among the
/// colored symbols.
proof fn lemma_pips_count(syms: Seq<ManaSymbol>, c: Color)
    ensures
        spec_pips(syms, c) == spec_color_count(spec_colored(syms), c),
    decreases syms.len(),
{
    if syms.len() > 0 {
        lemma_pips_count(syms.drop_first(), c);
        match syms[0] {
            ManaSymbol::Colored(x) => {
                let r = spec_colored(syms.drop_first());
                assert((seq![x] + r).drop_first() =~= r);
                assert((seq![x] + r)[0] == x);
            },
            _ => {},
        }
    }
}

/// Every pip has one of the five colors.
proof fn lemma_count_total(cs: Seq<Color>)
    ensures
        cs.len() == spec_color_count(cs, Color::White) + spec_color_count(cs, Color::Blue)
            + spec_color_count(cs, Color::Black) + spec_color_count(cs, Color::Red) + spec_color_count(cs, Color::Green),
        forall|c: Color| #[trigger] spec_color_count(cs, c) >= 0,
    decreases cs.len(),
{
    if cs.len() > 0 {
        lemma_count_total(cs.drop_first());
    }
}

/// Phase 1 over one-kind sources: it stops as soon as the colorless mana
/// tapped covers `cl`, and fails only when all of it cannot.
proof fn lemma_phase1_pays(s: Seq<ManaSource>, d: Seq<u32>, avail: Seq<usize>, plan: Seq<(ObjectId, usize)>,
    excess: int, rem: int, taken: Seq<usize>, cl: int) -> (t1: Seq<usize>)
    requires
        forall|i: int| 0 <= i < s.len() ==> #[trigger] spec_single_kind(s[i]),
        plan_from(s, avail, plan, taken),
        rem == (if spec_taps_of(s, taken, ManaType::Colorless) < cl { cl - spec_taps_of(s, taken, ManaType::Colorless) } else { 0 }),
        excess == spec_taps_mana(s, taken)
            - (if spec_taps_of(s, taken, ManaType::Colorless) < cl { spec_taps_of(s, taken, ManaType::Colorless) } else { cl }),
        taken.len() > 0 ==> spec_taps_of(s, taken.drop_last(), ManaType::Colorless) < cl,
    ensures
        match spec_phase1(s, d, avail, plan, excess, rem) {
            Some((a1, pl1, ex1)) => {
                &&& plan_from(s, a1, pl1, t1)
                &&& spec_taps_of(s, t1, ManaType::Colorless) >= cl
                &&& ex1 == spec_taps_mana(s, t1) - cl
                &&& (t1.len() > 0 ==> spec_taps_of(s, t1.drop_last(), ManaType::Colorless) < cl)
                &&& spec_taps_mana(s, t1) + spec_taps_mana(s, a1) == spec_taps_mana(s, taken) + spec_taps_mana(s, avail)
                &&& spec_taps_of(s, t1, ManaType::Colorless) + spec_taps_of(s, a1, ManaType::Colorless)
                    == spec_taps_of(s, taken, ManaType::Colorless) + spec_taps_of(s, avail, ManaType::Colorless)
                &&& forall|mt: ManaType| #[trigger] spec_taps_of(s, t1, mt) >= spec_taps_of(s, taken, mt)
                &&& forall|c: Color| #[trigger] spec_taps_count(s, a1, spec_mana_of(c)) == spec_taps_count(s, avail, spec_mana_of(c))
            },
            None => spec_taps_of(s, taken, ManaType::Colorless) + spec_taps_of(s, avail, ManaType::Colorless) < cl,
        },
    decreases avail.len(),
{
    if rem <= 0 {
        taken
    } else {
        let w = Want::Produces(ManaType::Colorless);
        match spec_best(s, avail, d, w) {
            None => {
                lemma_best_upto_none(s, avail, d, w, avail.len() as int);
                assert forall|j: int| 0 <= j < avail.len() implies
                    spec_tap_of(#[trigger] s[avail[j] as int], ManaType::Colorless) == 0 by {
                    lemma_single_amounts(s[avail[j] as int]);
                }
                lemma_taps_none(s, avail, ManaType::Colorless);
                taken
            },
            Some(pos) => {
                lemma_best_upto(s, avail, d, w, avail.len() as int);
                let x = avail[pos];
                let src = s[x as int];
                lemma_single_amounts(src);
                let made = spec_tap_of(src, ManaType::Colorless);
                assert(made > 0);
                assert(forall|c: Color| #[trigger] spec_tap_of(src, spec_mana_of(c)) == 0);
                let used = if made < rem { made } else { rem };
                lemma_take(s, avail, plan, taken, pos, 0);
                lemma_taps_remove(s, avail, pos);
                lemma_taps_push(s, taken, x);
                assert(taken.push(x).drop_last() =~= taken);
                lemma_phase1_pays(s, d, avail.remove(pos), plan.push((src.object_id, src.abilities@[0].ability_index)),
                    excess + spec_tap_mana(src) - used, rem - used, taken.push(x), cl)
            },
        }
    }
}

/// Phase 2 over one-kind sources: each pip taps a source of its color.
proof fn lemma_phase2_pays(s: Seq<ManaSource>, d: Seq<u32>, avail: Seq<usize>, plan: Seq<(ObjectId, usize)>,
    excess: int, colors: Seq<Color>, taken: Seq<usize>) -> (t2: Seq<usize>)
    requires
        forall|i: int| 0 <= i < s.len() ==> #[trigger] spec_single_kind(s[i]),
        plan_from(s, avail, plan, taken),
    ensures
        match spec_phase2(s, d, avail, plan, excess, colors) {
            Some((a2, pl2, ex2)) => {
                &&& plan_from(s, a2, pl2, t2)
                &&& ex2 == excess + spec_taps_mana(s, t2) - spec_taps_mana(s, taken) - colors.len()
                &&& spec_taps_mana(s, t2) >= spec_taps_mana(s, taken) + colors.len()
                &&& forall|mt: ManaType| #[trigger] spec_taps_of(s, t2, mt) >= spec_taps_of(s, taken, mt)
                &&& forall|c: Color| #[trigger] spec_taps_of(s, t2, spec_mana_of(c))
                    >= spec_taps_of(s, taken, spec_mana_of(c)) + spec_color_count(colors, c)
                &&& spec_taps_mana(s, t2) + spec_taps_mana(s, a2) == spec_taps_mana(s, taken) + spec_taps_mana(s, avail)
            },
            None => exists|c: Color| #[trigger] spec_taps_count(s, avail, spec_mana_of(c)) < spec_color_count(colors, c),
        },
    decreases colors.len(),
{
    if colors.len() == 0 {
        taken
    } else {
        let mt = spec_mana_of(colors[0]);
        let w = Want::Produces(mt);
        match spec_best(s, avail, d, w) {
            None => {
                lemma_best_upto_none(s, avail, d, w, avail.len() as int);
                assert forall|j: int| 0 <= j < avail.len() implies spec_tap_of(#[trigger] s[avail[j] as int], mt) == 0 by {
                    lemma_single_amounts(s[avail[j] as int]);
                }
                lemma_taps_none(s, avail, mt);
                assert(spec_color_count(colors, colors[0]) >= 1) by {
                    lemma_count_total(colors.drop_first());
                }
                assert(spec_taps_count(s, avail, spec_mana_of(colors[0])) < spec_color_count(colors, colors[0]));
                taken
            },
            Some(pos) => {
                lemma_best_upto(s, avail, d, w, avail.len() as int);
                let x = avail[pos];
                let src = s[x as int];
                lemma_single_amounts(src);
                assert(spec_first_making(src.abilities@, mt) is Some);
                lemma_take(s, avail, plan, taken, pos, 0);
                lemma_taps_remove(s, avail, pos);
                lemma_taps_push(s, taken, x);
                let a1 = avail.remove(pos);
                let p1 = plan.push((src.object_id, src.abilities@[0].ability_index));
                let ex1 = excess + spec_tap_mana(src) - 1;
                let rest = colors.drop_first();
                let t1 = taken.push(x);
                let t2 = lemma_phase2_pays(s, d, a1, p1, ex1, rest, t1);
                match spec_phase2(s, d, a1, p1, ex1, rest) {
                    Some(r) => {
                        assert forall|c: Color| #[trigger] spec_taps_of(s, t2, spec_mana_of(c))
                            >= spec_taps_of(s, taken, spec_mana_of(c)) + spec_color_count(colors, c) by {
                            assert(spec_tap_of(src, spec_mana_of(c)) >= 0);
                            assert(spec_taps_of(s, t1, spec_mana_of(c)) == spec_taps_of(s, taken, spec_mana_of(c))
                                + spec_tap_of(src, spec_mana_of(c)));
                            assert(spec_taps_of(s, t2, spec_mana_of(c)) >= spec_taps_of(s, t1, spec_mana_of(c))
                                + spec_color_count(rest, c));
                            assert(spec_color_count(colors, c) == (if colors[0] == c { 1int } else { 0 }) + spec_color_count(rest, c));
                        }
                    },
                    None => {
                        let c = choose|c: Color| #[trigger] spec_taps_count(s, a1, spec_mana_of(c)) < spec_color_count(rest, c);
                        assert(spec_color_count(colors, c) == (if colors[0] == c { 1int } else { 0 }) + spec_color_count(rest, c));
                        assert(spec_taps_count(s, a1, spec_mana_of(c)) == spec_taps_count(s, avail, spec_mana_of(c))
                            - if spec_tap_of(src, spec_mana_of(c)) > 0 { 1int } else { 0 });
                        assert(spec_taps_count(s, avail, spec_mana_of(c)) < spec_color_count(colors, c));
                    },
                }
                t2
            },
        }
    }
}

/// Phase 3 over one-kind sources: it stops as soon as the mana tapped
/// covers `cl + gen`, and fails only when all of it cannot.
proof fn lemma_phase3_pays(s: Seq<ManaSource>, d: Seq<u32>, avail: Seq<usize>, plan: Seq<(ObjectId, usize)>,
    rem: int, taken: Seq<usize>, cl: int, gen: int) -> (t3: Seq<usize>)
    requires
        forall|i: int| 0 <= i < s.len() ==> #[trigger] spec_single_kind(s[i]),
        plan_from(s, avail, plan, taken),
        rem == (if spec_taps_mana(s, taken) < cl + gen { cl + gen - spec_taps_mana(s, taken) } else { 0 }),
    ensures
        match spec_phase3(s, d, avail, plan, rem) {
            Some(p) => {
                &&& taken_ok(s, p, t3)
                &&& spec_taps_mana(s, t3) >= cl + gen
                &&& (t3 == taken || (t3.len() > 0 && spec_taps_mana(s, t3.drop_last()) < cl + gen))
                &&& spec_taps_mana(s, taken) + spec_taps_mana(s, avail) >= cl + gen
                &&& forall|mt: ManaType| #[trigger] spec_taps_of(s, t3, mt) >= spec_taps_of(s, taken, mt)
            },
            None => spec_taps_mana(s, taken) + spec_taps_mana(s, avail) < cl + gen,
        },
    decreases avail.len(),
{
    lemma_taps_nonneg(s, avail);
    if rem <= 0 {
        taken
    } else {
        match spec_best(s, avail, d, Want::Anything) {
            None => {
                lemma_best_upto_none(s, avail, d, Want::Anything, avail.len() as int);
                if avail.len() > 0 {
                    assert(spec_wants(s[avail[0] as int], Want::Anything));
                }
                taken
            },
            Some(pos) => {
                lemma_best_upto(s, avail, d, Want::Anything, avail.len() as int);
                assert(0 <= pos < avail.len());
                let x = avail[pos];
                assert((x as int) < s.len());
                let src = s[x as int];
                assert(spec_single_kind(src));
                lemma_single_amounts(src);
                assert(0 < src.abilities@.len());
                lemma_min_demand_upto(src.abilities@, d, src.abilities@.len() as int);
                let t = spec_tap_mana(src);
                let used = if t < rem { t } else { rem };
                lemma_take(s, avail, plan, taken, pos, 0);
                lemma_taps_remove(s, avail, pos);
                lemma_taps_push(s, taken, x);
                assert(taken.push(x).drop_last() =~= taken);
                lemma_phase3_pays(s, d, avail.remove(pos), plan.push((src.object_id, src.abilities@[0].ability_index)),
                    rem - used, taken.push(x), cl, gen)
            },
        }
    }
}

/// For a cost with no colored pip and no X, and sources that each have one
/// mana ability adding one type of mana: autotapping finds a plan exactly
/// when the floating mana and the sources together can pay the `{C}` part
/// and the whole mana value; the plan taps given sources, each once, whose
/// mana with the floating mana pays both; and it taps nothing more than it
/// needs: without its last tap, the mana is short of one or the other.
pub proof fn law_autotap_pays_what_is_owed(cost: ManaCost, pool: ManaPool, s: Seq<ManaSource>, hand: Seq<ManaCost>)
    requires
        s.len() <= usize::MAX,
        !spec_has_x(cost.symbols@),
        spec_colored(cost.symbols@).len() == 0,
        forall|i: int| 0 <= i < s.len() ==> #[trigger] spec_single_kind(s[i]),
    ensures
        ({
            let cl = spec_colorless_sum(cost.symbols@);
            let total = cl + spec_generic_sum(cost.symbols@);
            let all = spec_all_available(s);
            spec_autotap(cost, pool, s, hand) is Some
                <==> (pool.amount(ManaType::Colorless) + spec_taps_of(s, all, ManaType::Colorless) >= cl
                    && pool.spec_total() + spec_taps_mana(s, all) >= total)
        }),
        ({
            let cl = spec_colorless_sum(cost.symbols@);
            let total = cl + spec_generic_sum(cost.symbols@);
            let fc = pool.amount(ManaType::Colorless) as int;
            let ft = pool.spec_total();
            match spec_autotap(cost, pool, s, hand) {
                Some(plan) => exists|t: Seq<usize>| #[trigger] taken_ok(s, plan, t)
                    && fc + spec_taps_of(s, t, ManaType::Colorless) >= cl && ft + spec_taps_mana(s, t) >= total
                    && (t.len() > 0 ==> fc + spec_taps_of(s, t.drop_last(), ManaType::Colorless) < cl
                        || ft + spec_taps_mana(s, t.drop_last()) < total),
                None => true,
            }
        }),
{
    let syms = cost.symbols@;
    let cl = spec_colorless_sum(syms);
    let gen = spec_generic_sum(syms);
    let total = cl + gen;
    let fc = pool.amount(ManaType::Colorless) as int;
    let ft = pool.spec_total();
    let all = spec_all_available(s);
    let d = spec_demand_table(hand);
    let empty_plan = Seq::<(ObjectId, usize)>::empty();
    let empty_taken = Seq::<usize>::empty();
    lemma_colorless_sum_nonneg(syms);
    lemma_generic_sum_nonneg(syms);
    lemma_taps_nonneg(s, all);
    assert(taken_ok(s, empty_plan, empty_taken));
    assert(spec_taps_of(s, empty_taken, ManaType::Colorless) == 0 && spec_taps_mana(s, empty_taken) == 0);
    if syms.len() == 0 {
        assert(cl == 0 && gen == 0);
        assert(spec_autotap(cost, pool, s, hand) == Some(empty_plan));
        assert(taken_ok(s, spec_autotap(cost, pool, s, hand)->Some_0, empty_taken));
        return;
    }
    let colored = spec_colored(syms);
    assert(colored =~= Seq::<Color>::empty());
    assert(spec_keep_unpaid(pool, colored) == (pool, Seq::<Color>::empty()));
    let ded = if fc < cl { fc } else { cl };
    let p2 = pool.with(ManaType::Colorless, (fc - ded) as u32);
    let order = spec_generic_order();
    assert(order.no_duplicates()) by {
        assert forall|i: int, j: int| 0 <= i < order.len() && 0 <= j < order.len() && i != j implies order[i] != order[j] by {}
    }
    assert(spec_amounts(p2, order) == p2.spec_total()) by {
        reveal_with_fuel(spec_amounts, 7);
    }
    lemma_pay_generic(p2, gen, order);
    let cl1 = cl - ded;
    let gen1 = spec_pay_generic(p2, gen, order).1;
    assert(gen1 == (if gen > ft - ded { gen - (ft - ded) } else { 0 }));
    if cl1 == 0 && gen1 <= 0 {
        assert(spec_autotap(cost, pool, s, hand) == Some(empty_plan));
        assert(taken_ok(s, spec_autotap(cost, pool, s, hand)->Some_0, empty_taken));
        return;
    }
    assert(spec_autotap(cost, pool, s, hand) == spec_from_phase1(s, d, Seq::<Color>::empty(), gen1,
        spec_phase1(s, d, all, empty_plan, 0, cl1)));
    assert(plan_from(s, all, empty_plan, empty_taken));
    let t1 = lemma_phase1_pays(s, d, all, empty_plan, 0, cl1, empty_taken, cl1);
    match spec_phase1(s, d, all, empty_plan, 0, cl1) {
        None => {},
        Some((a1, pl1, ex1)) => {
            let ord = spec_scarcity_order(s, a1, Seq::<Color>::empty());
            assert(ord =~= Seq::<Color>::empty());
            assert(spec_phase2(s, d, a1, pl1, ex1, ord) == Some((a1, pl1, ex1)));
            lemma_taps_nonneg(s, t1);
            lemma_taps_nonneg(s, a1);
            let rem3 = spec_generic_after_excess(gen1, ex1);
            assert(rem3 == (if spec_taps_mana(s, t1) < cl1 + gen1 { cl1 + gen1 - spec_taps_mana(s, t1) } else { 0 }));
            assert(spec_autotap(cost, pool, s, hand) == spec_phase3(s, d, a1, pl1, rem3));
            let t3 = lemma_phase3_pays(s, d, a1, pl1, rem3, t1, cl1, gen1);
            match spec_phase3(s, d, a1, pl1, rem3) {
                Some(p) => {
                    lemma_taps_nonneg(s, t3);
                    if t3.len() > 0 {
                        lemma_taps_nonneg(s, t3.drop_last());
                    }
                    assert(spec_taps_of(s, t3, ManaType::Colorless) >= spec_taps_of(s, t1, ManaType::Colorless));
                    assert(taken_ok(s, p, t3)
                        && fc + spec_taps_of(s, t3, ManaType::Colorless) >= cl && ft + spec_taps_mana(s, t3) >= total
                        && (t3.len() > 0 ==> fc + spec_taps_of(s, t3.drop_last(), ManaType::Colorless) < cl
                            || ft + spec_taps_mana(s, t3.drop_last()) < total));
                },
                None => {},
            }
        },
    }
}

/// For a cost without X and sources that each have one mana ability adding
/// one type of mana: a plan that autotapping finds taps given sources,
/// each once, and their mana with the floating mana pays the cost.
#[verifier::rlimit(60)]
pub proof fn law_autotap_plan_pays(cost: ManaCost, pool: ManaPool, s: Seq<ManaSource>, hand: Seq<ManaCost>)
    requires
        s.len() <= usize::MAX,
        !spec_has_x(cost.symbols@),
        forall|i: int| 0 <= i < s.len() ==> #[trigger] spec_single_kind(s[i]),
    ensures
        match spec_autotap(cost, pool, s, hand) {
            Some(plan) => exists|t: Seq<usize>| #[trigger] taken_ok(s, plan, t) && spec_enough_with(pool, s, t, cost),
            None => true,
        },
{
    let syms = cost.symbols@;
    let cl = spec_colorless_sum(syms);
    let gen = spec_generic_sum(syms);
    let ft = pool.spec_total();
    let all = spec_all_available(s);
    let d = spec_demand_table(hand);
    let empty_plan = Seq::<(ObjectId, usize)>::empty();
    let empty_taken = Seq::<usize>::empty();
    lemma_colorless_sum_nonneg(syms);
    lemma_generic_sum_nonneg(syms);
    assert(taken_ok(s, empty_plan, empty_taken));
    lemma_taps_nonneg(s, empty_taken);
    assert(spec_taps_mana(s, empty_taken) == 0);
    let cs = spec_colored(syms);
    assert forall|c: Color| #[trigger] spec_pips(syms, c) == spec_color_count(cs, c) by {
        lemma_pips_count(syms, c);
    }
    lemma_count_total(cs);
    assert(spec_colored_count(syms) == cs.len());
    if syms.len() == 0 {
        assert(cl == 0 && gen == 0);
        assert(spec_autotap(cost, pool, s, hand) == Some(empty_plan));
        assert(spec_enough_with(pool, s, empty_taken, cost));
        assert(taken_ok(s, spec_autotap(cost, pool, s, hand)->Some_0, empty_taken));
        return;
    }
    let (p1, rest) = spec_keep_unpaid(pool, cs);
    lemma_keep_unpaid_counts(pool, cs);
    lemma_count_total(rest);
    let fc = p1.amount(ManaType::Colorless) as int;
    let ded = if fc < cl { fc } else { cl };
    let p2 = p1.with(ManaType::Colorless, (fc - ded) as u32);
    let order = spec_generic_order();
    assert(order.no_duplicates()) by {
        assert forall|i: int, j: int| 0 <= i < order.len() && 0 <= j < order.len() && i != j implies order[i] != order[j] by {}
    }
    assert(spec_amounts(p2, order) == p2.spec_total()) by {
        reveal_with_fuel(spec_amounts, 7);
    }
    lemma_pay_generic(p2, gen, order);
    let cl1 = cl - ded;
    let gen1 = spec_pay_generic(p2, gen, order).1;
    let p2t = ft - (cs.len() - rest.len()) - ded;
    assert(p2.spec_total() == p2t);
    assert(gen1 == (if gen > p2t { gen - p2t } else { 0 }));
    if rest.len() == 0 && cl1 == 0 && gen1 <= 0 {
        assert(spec_autotap(cost, pool, s, hand) == Some(empty_plan));
        assert forall|c: Color| pool.amount(spec_mana_of(c)) + #[trigger] spec_taps_of(s, empty_taken, spec_mana_of(c))
            >= spec_pips(syms, c) by {
            assert(spec_color_count(rest, c) == 0);
            assert(spec_taps_of(s, empty_taken, spec_mana_of(c)) == 0);
            assert(p1.amount(spec_mana_of(c)) <= pool.amount(spec_mana_of(c))
                && pool.amount(spec_mana_of(c)) - p1.amount(spec_mana_of(c)) + spec_color_count(rest, c) == spec_color_count(cs, c));
        }
        assert(spec_enough_with(pool, s, empty_taken, cost));
        assert(taken_ok(s, spec_autotap(cost, pool, s, hand)->Some_0, empty_taken));
        return;
    }
    assert(spec_autotap(cost, pool, s, hand) == spec_from_phase1(s, d, rest, gen1,
        spec_phase1(s, d, all, empty_plan, 0, cl1)));
    assert(plan_from(s, all, empty_plan, empty_taken));
    let t1 = lemma_phase1_pays(s, d, all, empty_plan, 0, cl1, empty_taken, cl1);
    match spec_phase1(s, d, all, empty_plan, 0, cl1) {
        None => {},
        Some((a1, pl1, ex1)) => {
            let ord = spec_scarcity_order(s, a1, rest);
            lemma_sort_counts(rest);
            assert(ord.len() == rest.len());
            assert(forall|c: Color| #[trigger] spec_color_count(ord, c) == spec_color_count(rest, c));
            lemma_taps_nonneg(s, t1);
            let t2 = lemma_phase2_pays(s, d, a1, pl1, ex1, ord, t1);
            match spec_phase2(s, d, a1, pl1, ex1, ord) {
                None => {},
                Some((a2, pl2, ex2)) => {
                    let r = rest.len() as int;
                    let rem3 = spec_generic_after_excess(gen1, ex2);
                    assert(ex2 == spec_taps_mana(s, t2) - cl1 - r);
                    assert(rem3 == (if spec_taps_mana(s, t2) < cl1 + (r + gen1) {
                        cl1 + (r + gen1) - spec_taps_mana(s, t2)
                    } else {
                        0
                    }));
                    assert(spec_autotap(cost, pool, s, hand) == spec_phase3(s, d, a2, pl2, rem3));
                    let t3 = lemma_phase3_pays(s, d, a2, pl2, rem3, t2, cl1, r + gen1);
                    match spec_phase3(s, d, a2, pl2, rem3) {
                        Some(p) => {
                            assert forall|c: Color| pool.amount(spec_mana_of(c)) + #[trigger] spec_taps_of(s, t3, spec_mana_of(c))
                                >= spec_pips(syms, c) by {
                                assert(spec_taps_of(s, t3, spec_mana_of(c)) >= spec_taps_of(s, t2, spec_mana_of(c)));
                                assert(spec_taps_of(s, t2, spec_mana_of(c))
                                    >= spec_taps_of(s, t1, spec_mana_of(c)) + spec_color_count(ord, c));
                                assert(spec_taps_of(s, t1, spec_mana_of(c)) >= 0);
                                assert(p1.amount(spec_mana_of(c)) <= pool.amount(spec_mana_of(c)));
                            }
                            assert(spec_taps_of(s, t3, ManaType::Colorless) >= spec_taps_of(s, t2, ManaType::Colorless));
                            assert(spec_taps_of(s, t2, ManaType::Colorless) >= spec_taps_of(s, t1, ManaType::Colorless));
                            assert(spec_enough_with(pool, s, t3, cost));
                            assert(taken_ok(s, p, t3));
                        },
                        None => {},
                    }
                },
            }
        },
    }
}

/// For a cost without X and sources that each have one mana ability adding
/// one type of mana: autotapping finds a plan whenever the floating mana
/// and the sources can pay the cost with a source of its own for each
/// colored pip that the floating mana does not pay.
#[verifier::rlimit(60)]
pub proof fn law_autotap_finds_plan(cost: ManaCost, pool: ManaPool, s: Seq<ManaSource>, hand: Seq<ManaCost>)
    requires
        s.len() <= usize::MAX,
        !spec_has_x(cost.symbols@),
        forall|i: int| 0 <= i < s.len() ==> #[trigger] spec_single_kind(s[i]),
        forall|c: Color| pool.amount(spec_mana_of(c)) + #[trigger] spec_taps_count(s, spec_all_available(s), spec_mana_of(c))
            >= spec_pips(cost.symbols@, c),
        pool.amount(ManaType::Colorless) + spec_taps_of(s, spec_all_available(s), ManaType::Colorless)
            >= spec_colorless_sum(cost.symbols@),
        pool.spec_total() + spec_taps_mana(s, spec_all_available(s)) - spec_colored_count(cost.symbols@)
            - spec_colorless_sum(cost.symbols@) >= spec_generic_sum(cost.symbols@),
    ensures
        spec_autotap(cost, pool, s, hand) is Some,
{
    let syms = cost.symbols@;
    let cl = spec_colorless_sum(syms);
    let gen = spec_generic_sum(syms);
    let ft = pool.spec_total();
    let all = spec_all_available(s);
    let d = spec_demand_table(hand);
    let empty_plan = Seq::<(ObjectId, usize)>::empty();
    let empty_taken = Seq::<usize>::empty();
    lemma_colorless_sum_nonneg(syms);
    lemma_generic_sum_nonneg(syms);
    lemma_taps_nonneg(s, empty_taken);
    assert(spec_taps_mana(s, empty_taken) == 0);
    assert(spec_taps_of(s, empty_taken, ManaType::Colorless) == 0);
    if syms.len() == 0 {
        return;
    }
    let cs = spec_colored(syms);
    assert forall|c: Color| #[trigger] spec_pips(syms, c) == spec_color_count(cs, c) by {
        lemma_pips_count(syms, c);
    }
    lemma_count_total(cs);
    assert(spec_colored_count(syms) == cs.len());
    let (p1, rest) = spec_keep_unpaid(pool, cs);
    lemma_keep_unpaid_counts(pool, cs);
    lemma_count_total(rest);
    lemma_taps_split(s, all);
    assert forall|c: Color| #[trigger] spec_color_count(rest, c) <= spec_taps_count(s, all, spec_mana_of(c)) by {
        assert(pool.amount(spec_mana_of(c)) + spec_taps_count(s, all, spec_mana_of(c)) >= spec_pips(syms, c));
        assert(spec_taps_count(s, all, spec_mana_of(c)) >= 0);
        assert(p1.amount(spec_mana_of(c)) <= pool.amount(spec_mana_of(c))
            && pool.amount(spec_mana_of(c)) - p1.amount(spec_mana_of(c)) + spec_color_count(rest, c) == spec_color_count(cs, c));
        if spec_color_count(rest, c) > 0 {
            assert(p1.amount(spec_mana_of(c)) == 0);
        }
        assert(spec_pips(syms, c) == spec_color_count(cs, c));
    }
    lemma_taps_split(s, all);
    let fc = p1.amount(ManaType::Colorless) as int;
    let ded = if fc < cl { fc } else { cl };
    let p2 = p1.with(ManaType::Colorless, (fc - ded) as u32);
    let order = spec_generic_order();
    assert(order.no_duplicates()) by {
        assert forall|i: int, j: int| 0 <= i < order.len() && 0 <= j < order.len() && i != j implies order[i] != order[j] by {}
    }
    assert(spec_amounts(p2, order) == p2.spec_total()) by {
        reveal_with_fuel(spec_amounts, 7);
    }
    lemma_pay_generic(p2, gen, order);
    let cl1 = cl - ded;
    let gen1 = spec_pay_generic(p2, gen, order).1;
    let r = rest.len() as int;
    let p2t = ft - (cs.len() - r) - ded;
    assert(p2.spec_total() == p2t);
    assert(gen1 == (if gen > p2t { gen - p2t } else { 0 }));
    assert(spec_taps_mana(s, all) >= cl1 + r + gen1) by {
        assert(spec_taps_of(s, all, ManaType::Colorless) >= cl1);
        assert(spec_taps_of(s, all, ManaType::White) >= spec_color_count(rest, Color::White));
        assert(spec_taps_of(s, all, ManaType::Blue) >= spec_color_count(rest, Color::Blue));
        assert(spec_taps_of(s, all, ManaType::Black) >= spec_color_count(rest, Color::Black));
        assert(spec_taps_of(s, all, ManaType::Red) >= spec_color_count(rest, Color::Red));
        assert(spec_taps_of(s, all, ManaType::Green) >= spec_color_count(rest, Color::Green));
    }
    if rest.len() == 0 && cl1 == 0 && gen1 <= 0 {
        return;
    }
    assert(spec_autotap(cost, pool, s, hand) == spec_from_phase1(s, d, rest, gen1,
        spec_phase1(s, d, all, empty_plan, 0, cl1)));
    assert(plan_from(s, all, empty_plan, empty_taken));
    let t1 = lemma_phase1_pays(s, d, all, empty_plan, 0, cl1, empty_taken, cl1);
    match spec_phase1(s, d, all, empty_plan, 0, cl1) {
        None => {},
        Some((a1, pl1, ex1)) => {
            let ord = spec_scarcity_order(s, a1, rest);
            lemma_sort_counts(rest);
            assert(ord.len() == rest.len());
            assert(forall|c: Color| #[trigger] spec_color_count(ord, c) == spec_color_count(rest, c));
            lemma_taps_nonneg(s, t1);
            let t2 = lemma_phase2_pays(s, d, a1, pl1, ex1, ord, t1);
            match spec_phase2(s, d, a1, pl1, ex1, ord) {
                None => {
                    let c = choose|c: Color| #[trigger] spec_taps_count(s, a1, spec_mana_of(c)) < spec_color_count(ord, c);
                    assert(spec_taps_count(s, a1, spec_mana_of(c)) == spec_taps_count(s, all, spec_mana_of(c)));
                    assert(spec_color_count(rest, c) <= spec_taps_count(s, all, spec_mana_of(c)));
                },
                Some((a2, pl2, ex2)) => {
                    let rem3 = spec_generic_after_excess(gen1, ex2);
                    assert(ex2 == spec_taps_mana(s, t2) - cl1 - r);
                    assert(rem3 == (if spec_taps_mana(s, t2) < cl1 + (r + gen1) {
                        cl1 + (r + gen1) - spec_taps_mana(s, t2)
                    } else {
                        0
                    }));
                    assert(spec_autotap(cost, pool, s, hand) == spec_phase3(s, d, a2, pl2, rem3));
                    let t3 = lemma_phase3_pays(s, d, a2, pl2, rem3, t2, cl1, r + gen1);
                },
            }
        },
    }
}

} // verus!
