//! An object's characteristics: the printed half (its active face, or a
//! token's face) united with the granted half (what effects wrote on the
//! object). Union, never override.

use vstd::prelude::*;
use crate::cards::{CardData, CardRegistry, TriggeredAbilityDef};
use crate::ids::ObjectId;
use crate::state::{GameObject, GameState};
use crate::text::{contains_string, views};
use crate::types::{CardType, Color, ContinuousEffect, Keyword, ManaSymbol, Supertype};
use crate::util::str_eq;

verus! {

/// `a` followed by the elements of `b` it does not already have, in order.
pub open spec fn spec_union<T>(a: Seq<T>, b: Seq<T>) -> Seq<T>
    decreases b.len(),
{
    if b.len() == 0 {
        a
    } else {
        let u = spec_union(a, b.drop_last());
        if u.contains(b.last()) { u } else { u.push(b.last()) }
    }
}

/// The colors of a mana cost's colored symbols, each once, in order.
pub open spec fn spec_cost_colors(s: Seq<ManaSymbol>) -> Seq<Color>
    decreases s.len(),
{
    if s.len() == 0 {
        Seq::empty()
    } else {
        let c = spec_cost_colors(s.drop_last());
        match s.last() {
            ManaSymbol::Colored(x) => if c.contains(x) { c } else { c.push(x) },
            _ => c,
        }
    }
}

/// The face of a card that is up: the back face when transformed.
pub open spec fn spec_face_of_card(o: GameObject, registry: &CardRegistry) -> Option<CardData> {
    match registry.spec_get(o.card_id) {
        Some(c) => if o.is_transformed && c.back is Some { c.back } else { Some(c.front) },
        None => None,
    }
}

/// The colors a face has: its color indicator, or else its cost's colors
/// (CR 204.2).
pub open spec fn spec_face_colors(d: CardData) -> Seq<Color> {
    if d.color_indicator@.len() > 0 {
        d.color_indicator@
    } else {
        match d.cost {
            Some(c) => spec_cost_colors(c.symbols@),
            None => Seq::empty(),
        }
    }
}

fn union_card_types(a: &Vec<CardType>, b: &Vec<CardType>) -> (r: Vec<CardType>)
    ensures
        r@ == spec_union(a@, b@),
{
    let mut r: Vec<CardType> = Vec::new();
    let mut i: usize = 0;
    while i < a.len()
        invariant
            i <= a@.len(),
            r@ == a@.take(i as int),
        decreases a@.len() - i,
    {
        r.push(a[i]);
        i = i + 1;
        proof { assert(r@ =~= a@.take(i as int)); }
    }
    proof { assert(a@.take(i as int) =~= a@); }
    let mut j: usize = 0;
    while j < b.len()
        invariant
            j <= b@.len(),
            r@ == spec_union(a@, b@.take(j as int)),
        decreases b@.len() - j,
    {
        proof { assert(b@.take(j + 1).drop_last() =~= b@.take(j as int)); }
        let x = b[j];
        let mut found = false;
        let mut k: usize = 0;
        while k < r.len()
            invariant
                k <= r@.len(),
                found == exists|m: int| 0 <= m < k && r@[m] == x,
            decreases r@.len() - k,
        {
            if r[k] == x {
                found = true;
            }
            k = k + 1;
        }
        proof {
            if found {
                let m = choose|m: int| 0 <= m < k && r@[m] == x;
                assert(r@.contains(x));
            } else {
                assert(!r@.contains(x));
            }
        }
        if !found {
            r.push(x);
        }
        j = j + 1;
    }
    proof { assert(b@.take(j as int) =~= b@); }
    r
}

fn union_colors(a: &Vec<Color>, b: &Vec<Color>) -> (r: Vec<Color>)
    ensures
        r@ == spec_union(a@, b@),
{
    let mut r: Vec<Color> = Vec::new();
    let mut i: usize = 0;
    while i < a.len()
        invariant
            i <= a@.len(),
            r@ == a@.take(i as int),
        decreases a@.len() - i,
    {
        r.push(a[i]);
        i = i + 1;
        proof { assert(r@ =~= a@.take(i as int)); }
    }
    proof { assert(a@.take(i as int) =~= a@); }
    let mut j: usize = 0;
    while j < b.len()
        invariant
            j <= b@.len(),
            r@ == spec_union(a@, b@.take(j as int)),
        decreases b@.len() - j,
    {
        proof { assert(b@.take(j + 1).drop_last() =~= b@.take(j as int)); }
        let x = b[j];
        let mut found = false;
        let mut k: usize = 0;
        while k < r.len()
            invariant
                k <= r@.len(),
                found == exists|m: int| 0 <= m < k && r@[m] == x,
            decreases r@.len() - k,
        {
            if r[k] == x {
                found = true;
            }
            k = k + 1;
        }
        proof {
            if found {
                let m = choose|m: int| 0 <= m < k && r@[m] == x;
                assert(r@.contains(x));
            } else {
                assert(!r@.contains(x));
            }
        }
        if !found {
            r.push(x);
        }
        j = j + 1;
    }
    proof { assert(b@.take(j as int) =~= b@); }
    r
}

fn union_strings(a: &Vec<String>, b: &Vec<String>) -> (r: Vec<String>)
    ensures
        views(r@) == spec_union(views(a@), views(b@)),
{
    let mut r: Vec<String> = Vec::new();
    let mut i: usize = 0;
    while i < a.len()
        invariant
            i <= a@.len(),
            r@ == a@.take(i as int),
        decreases a@.len() - i,
    {
        r.push(a[i].clone());
        i = i + 1;
        proof { assert(r@ =~= a@.take(i as int)); }
    }
    proof { assert(a@.take(i as int) =~= a@); }
    let mut j: usize = 0;
    while j < b.len()
        invariant
            j <= b@.len(),
            views(r@) == spec_union(views(a@), views(b@.take(j as int))),
        decreases b@.len() - j,
    {
        proof { assert(views(b@.take(j + 1)).drop_last() =~= views(b@.take(j as int))); }
        let mut found = false;
        let mut k: usize = 0;
        while k < r.len()
            invariant
                k <= r@.len(),
                j < b@.len(),
                found == exists|m: int| 0 <= m < k && r@[m]@ == b@[j as int]@,
            decreases r@.len() - k,
        {
            if str_eq(r[k].as_str(), b[j].as_str()) {
                found = true;
            }
            k = k + 1;
        }
        proof {
            let v = views(r@);
            if found {
                let m = choose|m: int| 0 <= m < k && r@[m]@ == b@[j as int]@;
                assert(v[m] == b@[j as int]@);
                assert(v.contains(b@[j as int]@));
            } else {
                assert forall|m: int| 0 <= m < v.len() implies v[m] != b@[j as int]@ by {}
                assert(!v.contains(b@[j as int]@));
            }
        }
        if !found {
            r.push(b[j].clone());
            proof { assert(views(r@) =~= views(r@).drop_last().push(b@[j as int]@)); }
        }
        j = j + 1;
        proof {
            assert(views(b@.take(j as int)).last() == b@[j - 1]@);
        }
    }
    proof { assert(b@.take(j as int) =~= b@); }
    r
}

fn cost_colors(s: &Vec<ManaSymbol>) -> (r: Vec<Color>)
    ensures
        r@ == spec_cost_colors(s@),
{
    let mut r: Vec<Color> = Vec::new();
    let mut j: usize = 0;
    while j < s.len()
        invariant
            j <= s@.len(),
            r@ == spec_cost_colors(s@.take(j as int)),
        decreases s@.len() - j,
    {
        proof { assert(s@.take(j + 1).drop_last() =~= s@.take(j as int)); }
        match s[j] {
            ManaSymbol::Colored(x) => {
                let mut found = false;
                let mut k: usize = 0;
                while k < r.len()
                    invariant
                        k <= r@.len(),
                        found == exists|m: int| 0 <= m < k && r@[m] == x,
                    decreases r@.len() - k,
                {
                    if r[k] == x {
                        found = true;
                    }
                    k = k + 1;
                }
                proof {
                    if found {
                        let m = choose|m: int| 0 <= m < k && r@[m] == x;
                        assert(r@.contains(x));
                    }
                }
                if !found {
                    r.push(x);
                }
            },
            _ => {},
        }
        j = j + 1;
    }
    proof { assert(s@.take(j as int) =~= s@); }
    r
}

fn copy_keywords(a: &Vec<Keyword>) -> (r: Vec<Keyword>)
    ensures
        r@ == a@,
{
    let mut r: Vec<Keyword> = Vec::new();
    let mut i: usize = 0;
    while i < a.len()
        invariant
            i <= a@.len(),
            r@ == a@.take(i as int),
        decreases a@.len() - i,
    {
        r.push(a[i]);
        i = i + 1;
        proof { assert(r@ =~= a@.take(i as int)); }
    }
    proof { assert(a@.take(i as int) =~= a@); }
    r
}

fn copy_strings(a: &Vec<String>) -> (r: Vec<String>)
    ensures
        views(r@) == views(a@),
        r@ == a@,
{
    let mut r: Vec<String> = Vec::new();
    let mut i: usize = 0;
    while i < a.len()
        invariant
            i <= a@.len(),
            r@ == a@.take(i as int),
        decreases a@.len() - i,
    {
        r.push(a[i].clone());
        i = i + 1;
        proof { assert(r@ =~= a@.take(i as int)); }
    }
    proof { assert(a@.take(i as int) =~= a@); }
    r
}

fn contains_card_type(v: &Vec<CardType>, t: CardType) -> (b: bool)
    ensures
        b == v@.contains(t),
{
    let mut i: usize = 0;
    while i < v.len()
        invariant
            i <= v@.len(),
            forall|j: int| 0 <= j < i ==> v@[j] != t,
        decreases v@.len() - i,
    {
        if v[i] == t {
            assert(v@[i as int] == t);
            return true;
        }
        i = i + 1;
    }
    false
}

fn has_legendary(v: &Vec<Supertype>) -> (b: bool)
    ensures
        b == v@.contains(Supertype::Legendary),
{
    let mut i: usize = 0;
    while i < v.len()
        invariant
            i <= v@.len(),
            forall|j: int| 0 <= j < i ==> v@[j] != Supertype::Legendary,
        decreases v@.len() - i,
    {
        if v[i] == Supertype::Legendary {
            assert(v@[i as int] == Supertype::Legendary);
            return true;
        }
        i = i + 1;
    }
    false
}

impl GameState {
    /// The face that is up, for an object with a card behind it.
    pub open spec fn spec_face(&self, id: ObjectId, registry: &CardRegistry) -> Option<CardData> {
        match self.spec_obj(id) {
            Some(o) => spec_face_of_card(o, registry),
            None => None,
        }
    }

    /// The card types: the object's granted ones, then the face's, and a
    /// creature whenever the object has a power (CR 205.1b).
    pub open spec fn spec_card_types(&self, id: ObjectId, registry: &CardRegistry) -> Seq<CardType> {
        let granted = match self.spec_obj(id) {
            Some(o) => o.card_types@,
            None => Seq::empty(),
        };
        let u = match self.spec_face(id, registry) {
            Some(d) => spec_union(granted, d.card_types@),
            None => granted,
        };
        if !u.contains(CardType::Creature) && (self.spec_obj(id) matches Some(o) && o.power is Some) {
            u.push(CardType::Creature)
        } else {
            u
        }
    }

    /// The subtypes: the object's granted ones, then the face's.
    pub open spec fn spec_subtypes(&self, id: ObjectId, registry: &CardRegistry) -> Seq<Seq<char>> {
        let granted = match self.spec_obj(id) {
            Some(o) => views(o.subtypes@),
            None => Seq::empty(),
        };
        match self.spec_face(id, registry) {
            Some(d) => spec_union(granted, views(d.subtypes@)),
            None => granted,
        }
    }

    /// Whether the object has the subtype, granted or printed.
    pub open spec fn spec_has_subtype(&self, id: ObjectId, subtype: Seq<char>, registry: &CardRegistry) -> bool {
        (self.spec_obj(id) matches Some(o) && views(o.subtypes@).contains(subtype))
            || (self.spec_face(id, registry) matches Some(d) && views(d.subtypes@).contains(subtype))
    }

    /// The colors: granted ones, then the face's (CR 204.2).
    pub open spec fn spec_colors(&self, id: ObjectId, registry: &CardRegistry) -> Seq<Color> {
        let granted = match self.spec_obj(id) {
            Some(o) => o.colors@,
            None => Seq::empty(),
        };
        match self.spec_face(id, registry) {
            Some(d) => spec_union(granted, spec_face_colors(d)),
            None => granted,
        }
    }

    /// The name: the face's, else the object's own.
    pub open spec fn spec_name(&self, id: ObjectId, registry: &CardRegistry) -> Seq<char> {
        match self.spec_face(id, registry) {
            Some(d) => d.name@,
            None => match self.spec_obj(id) {
                Some(o) => o.name@,
                None => Seq::empty(),
            },
        }
    }

    /// The printed keywords: the face's, a token's face's, or the object's.
    pub open spec fn spec_printed_keywords(&self, id: ObjectId, registry: &CardRegistry) -> Seq<Keyword> {
        match self.spec_face(id, registry) {
            Some(d) => d.keywords@,
            None => match self.spec_obj(id) {
                Some(o) => match o.token_face {
                    Some(f) => f.keywords@,
                    None => o.keywords@,
                },
                None => Seq::empty(),
            },
        }
    }

    /// The printed card types.
    pub open spec fn spec_printed_card_types(&self, id: ObjectId, registry: &CardRegistry) -> Seq<CardType> {
        match self.spec_face(id, registry) {
            Some(d) => d.card_types@,
            None => match self.spec_obj(id) {
                Some(o) => match o.token_face {
                    Some(f) => f.card_types@,
                    None => o.card_types@,
                },
                None => Seq::empty(),
            },
        }
    }

    /// The printed subtypes.
    pub open spec fn spec_printed_subtypes(&self, id: ObjectId, registry: &CardRegistry) -> Seq<Seq<char>> {
        match self.spec_face(id, registry) {
            Some(d) => views(d.subtypes@),
            None => match self.spec_obj(id) {
                Some(o) => match o.token_face {
                    Some(f) => views(f.subtypes@),
                    None => views(o.subtypes@),
                },
                None => Seq::empty(),
            },
        }
    }

    /// The printed colors.
    pub open spec fn spec_printed_colors(&self, id: ObjectId, registry: &CardRegistry) -> Seq<Color> {
        match self.spec_face(id, registry) {
            Some(d) => spec_face_colors(d),
            None => match self.spec_obj(id) {
                Some(o) => match o.token_face {
                    Some(f) => f.colors@,
                    None => o.colors@,
                },
                None => Seq::empty(),
            },
        }
    }

    /// The printed power and toughness.
    pub open spec fn spec_printed_pt(&self, id: ObjectId, registry: &CardRegistry) -> (Option<i32>, Option<i32>) {
        match self.spec_face(id, registry) {
            Some(d) => (d.power, d.toughness),
            None => match self.spec_obj(id) {
                Some(o) => match o.token_face {
                    Some(f) => (f.power, f.toughness),
                    None => (o.power, o.toughness),
                },
                None => (None, None),
            },
        }
    }

    /// Legendary: the face says so, or the object is flagged.
    pub open spec fn spec_is_legendary(&self, id: ObjectId, registry: &CardRegistry) -> bool {
        (self.spec_face(id, registry) matches Some(d) && d.supertypes@.contains(Supertype::Legendary))
            || (self.spec_obj(id) matches Some(o) && o.is_legendary)
    }

    /// The face that is up: the back face for a transformed double-faced
    /// card, the front face otherwise; `None` with no card behind it.
    pub fn face_data<'a>(&self, id: ObjectId, registry: &'a CardRegistry) -> (r: Option<&'a CardData>)
        ensures
            match r {
                Some(d) => self.spec_face(id, registry) == Some(*d),
                None => self.spec_face(id, registry) is None,
            },
    {
        let obj = match self.get_object(id) {
            Some(o) => o,
            None => return None,
        };
        let card = match registry.get(obj.card_id) {
            Some(c) => c,
            None => return None,
        };
        if obj.is_transformed {
            match &card.back {
                Some(b) => return Some(b),
                None => {},
            }
        }
        Some(&card.front)
    }

    /// The name on the face that is up; a token's own name; "" for nothing.
    pub fn name_of(&self, id: ObjectId, registry: &CardRegistry) -> (s: String)
        ensures
            s@ == (match self.spec_face(id, registry) {
                Some(d) => d.name@,
                None => match self.spec_obj(id) {
                    Some(o) => o.name@,
                    None => Seq::empty(),
                },
            }),
    {
        match self.face_data(id, registry) {
            Some(d) => d.name.clone(),
            None => match self.get_object(id) {
                Some(o) => o.name.clone(),
                None => String::new(),
            },
        }
    }

    /// The card types: granted ones united with the face's, and creature
    /// for anything with a power (CR 205.1b).
    pub fn card_types_of(&self, id: ObjectId, registry: &CardRegistry) -> (r: Vec<CardType>)
        ensures
            r@ == self.spec_card_types(id, registry),
    {
        let empty: Vec<CardType> = Vec::new();
        let granted: &Vec<CardType> = match self.get_object(id) {
            Some(o) => &o.card_types,
            None => &empty,
        };
        let mut types = match self.face_data(id, registry) {
            Some(d) => union_card_types(granted, &d.card_types),
            None => union_card_types(granted, &empty),
        };
        proof {
            assert(spec_union(granted@, empty@) == granted@);
        }
        let has_power = match self.get_object(id) {
            Some(o) => o.power.is_some(),
            None => false,
        };
        if !contains_card_type(&types, CardType::Creature) && has_power {
            types.push(CardType::Creature);
        }
        types
    }

    /// Whether the object has the card type.
    pub fn has_card_type(&self, id: ObjectId, card_type: CardType, registry: &CardRegistry) -> (b: bool)
        ensures
            b == self.spec_card_types(id, registry).contains(card_type),
    {
        let types = self.card_types_of(id, registry);
        contains_card_type(&types, card_type)
    }

    /// Whether the object is a creature.
    pub fn is_creature(&self, id: ObjectId, registry: &CardRegistry) -> (b: bool)
        ensures
            b == self.spec_card_types(id, registry).contains(CardType::Creature),
    {
        self.has_card_type(id, CardType::Creature, registry)
    }

    /// The subtypes: granted ones united with the face's.
    pub fn subtypes_of(&self, id: ObjectId, registry: &CardRegistry) -> (r: Vec<String>)
        ensures
            views(r@) == self.spec_subtypes(id, registry),
    {
        let empty: Vec<String> = Vec::new();
        let granted: &Vec<String> = match self.get_object(id) {
            Some(o) => &o.subtypes,
            None => &empty,
        };
        proof {
            assert(views(empty@) =~= Seq::<Seq<char>>::empty());
        }
        match self.face_data(id, registry) {
            Some(d) => union_strings(granted, &d.subtypes),
            None => copy_strings(granted),
        }
    }

    /// Whether the object has the subtype, granted or on the face that is up.
    pub fn has_subtype(&self, id: ObjectId, subtype: &str, registry: &CardRegistry) -> (b: bool)
        ensures
            b == self.spec_has_subtype(id, subtype@, registry),
    {
        let granted = match self.get_object(id) {
            Some(o) => contains_string(&o.subtypes, subtype),
            None => false,
        };
        if granted {
            return true;
        }
        match self.face_data(id, registry) {
            Some(d) => contains_string(&d.subtypes, subtype),
            None => false,
        }
    }

    /// An Equipment is an artifact with the Equipment subtype (CR 301.5).
    pub fn is_equipment(&self, id: ObjectId, registry: &CardRegistry) -> (b: bool)
        ensures
            b == self.spec_has_subtype(id, "Equipment"@, registry),
    {
        self.has_subtype(id, "Equipment", registry)
    }

    /// The printed keywords: the face's, a token's face's, or the object's.
    pub fn printed_keywords_of(&self, id: ObjectId, registry: &CardRegistry) -> (r: Vec<Keyword>)
        ensures
            r@ == (match self.spec_face(id, registry) {
                Some(d) => d.keywords@,
                None => match self.spec_obj(id) {
                    Some(o) => match o.token_face {
                        Some(f) => f.keywords@,
                        None => o.keywords@,
                    },
                    None => Seq::empty(),
                },
            }),
    {
        match self.face_data(id, registry) {
            Some(d) => copy_keywords(&d.keywords),
            None => match self.get_object(id) {
                Some(o) => match &o.token_face {
                    Some(f) => copy_keywords(&f.keywords),
                    None => copy_keywords(&o.keywords),
                },
                None => Vec::new(),
            },
        }
    }

    /// The printed card types, ignoring grants.
    pub fn printed_card_types_of(&self, id: ObjectId, registry: &CardRegistry) -> (r: Vec<CardType>)
        ensures
            r@ == (match self.spec_face(id, registry) {
                Some(d) => d.card_types@,
                None => match self.spec_obj(id) {
                    Some(o) => match o.token_face {
                        Some(f) => f.card_types@,
                        None => o.card_types@,
                    },
                    None => Seq::empty(),
                },
            }),
    {
        let empty: Vec<CardType> = Vec::new();
        let r = match self.face_data(id, registry) {
            Some(d) => union_card_types(&d.card_types, &empty),
            None => match self.get_object(id) {
                Some(o) => match &o.token_face {
                    Some(f) => union_card_types(&f.card_types, &empty),
                    None => union_card_types(&o.card_types, &empty),
                },
                None => Vec::new(),
            },
        };
        r
    }

    /// The printed subtypes, ignoring grants.
    pub fn printed_subtypes_of(&self, id: ObjectId, registry: &CardRegistry) -> (r: Vec<String>)
        ensures
            views(r@) == (match self.spec_face(id, registry) {
                Some(d) => views(d.subtypes@),
                None => match self.spec_obj(id) {
                    Some(o) => match o.token_face {
                        Some(f) => views(f.subtypes@),
                        None => views(o.subtypes@),
                    },
                    None => Seq::empty(),
                },
            }),
    {
        match self.face_data(id, registry) {
            Some(d) => copy_strings(&d.subtypes),
            None => match self.get_object(id) {
                Some(o) => match &o.token_face {
                    Some(f) => copy_strings(&f.subtypes),
                    None => copy_strings(&o.subtypes),
                },
                None => {
                    let r: Vec<String> = Vec::new();
                    assert(views(r@) =~= Seq::<Seq<char>>::empty());
                    r
                },
            },
        }
    }

    /// The printed colors: the face's (its color indicator, else its cost's
    /// colors), a token's face's, or the object's.
    pub fn printed_colors_of(&self, id: ObjectId, registry: &CardRegistry) -> (r: Vec<Color>)
        ensures
            r@ == (match self.spec_face(id, registry) {
                Some(d) => spec_face_colors(d),
                None => match self.spec_obj(id) {
                    Some(o) => match o.token_face {
                        Some(f) => f.colors@,
                        None => o.colors@,
                    },
                    None => Seq::empty(),
                },
            }),
    {
        let empty: Vec<Color> = Vec::new();
        match self.face_data(id, registry) {
            Some(d) => {
                if d.color_indicator.len() > 0 {
                    union_colors(&d.color_indicator, &empty)
                } else {
                    match &d.cost {
                        Some(c) => cost_colors(&c.symbols),
                        None => Vec::new(),
                    }
                }
            },
            None => match self.get_object(id) {
                Some(o) => match &o.token_face {
                    Some(f) => union_colors(&f.colors, &empty),
                    None => union_colors(&o.colors, &empty),
                },
                None => Vec::new(),
            },
        }
    }

    /// The printed power and toughness.
    pub fn printed_pt_of(&self, id: ObjectId, registry: &CardRegistry) -> (r: (Option<i32>, Option<i32>))
        ensures
            r == (match self.spec_face(id, registry) {
                Some(d) => (d.power, d.toughness),
                None => match self.spec_obj(id) {
                    Some(o) => match o.token_face {
                        Some(f) => (f.power, f.toughness),
                        None => (o.power, o.toughness),
                    },
                    None => (None, None),
                },
            }),
    {
        match self.face_data(id, registry) {
            Some(d) => (d.power, d.toughness),
            None => match self.get_object(id) {
                Some(o) => match &o.token_face {
                    Some(f) => (f.power, f.toughness),
                    None => (o.power, o.toughness),
                },
                None => (None, None),
            },
        }
    }

    /// Whether the permanent is legendary (CR 205.4): its face says so, or
    /// the object is flagged (a token copy of a legend).
    pub fn is_legendary(&self, id: ObjectId, registry: &CardRegistry) -> (b: bool)
        ensures
            b == ((self.spec_face(id, registry) matches Some(d) && d.supertypes@.contains(Supertype::Legendary))
                || (self.spec_obj(id) matches Some(o) && o.is_legendary)),
    {
        match self.face_data(id, registry) {
            Some(d) => {
                if has_legendary(&d.supertypes) {
                    return true;
                }
            },
            None => {},
        }
        match self.get_object(id) {
            Some(o) => o.is_legendary,
            None => false,
        }
    }

    /// The colors: granted ones united with the face's.
    pub fn colors_of(&self, id: ObjectId, registry: &CardRegistry) -> (r: Vec<Color>)
        ensures
            r@ == self.spec_colors(id, registry),
    {
        let empty: Vec<Color> = Vec::new();
        let granted: &Vec<Color> = match self.get_object(id) {
            Some(o) => &o.colors,
            None => &empty,
        };
        proof {
            assert(spec_union(granted@, empty@) == granted@);
        }
        match self.face_data(id, registry) {
            Some(d) => {
                if d.color_indicator.len() > 0 {
                    union_colors(granted, &d.color_indicator)
                } else {
                    match &d.cost {
                        Some(c) => {
                            let cc = cost_colors(&c.symbols);
                            union_colors(granted, &cc)
                        },
                        None => union_colors(granted, &empty),
                    }
                }
            },
            None => union_colors(granted, &empty),
        }
    }

    /// The continuous effects the object provides: its face's, then any it
    /// was given of its own.
    pub open spec fn spec_effects(&self, id: ObjectId, registry: &CardRegistry) -> Seq<ContinuousEffect> {
        match self.spec_obj(id) {
            Some(o) => {
                let face = match self.spec_face(id, registry) {
                    Some(d) => d.continuous_effects@,
                    None => Seq::empty(),
                };
                match o.instance_continuous_effects {
                    Some(v) => face + v@,
                    None => face,
                }
            },
            None => Seq::empty(),
        }
    }

    /// The continuous effects the object provides: its face's, then any it
    /// was given of its own.
    pub fn continuous_effects_of<'a>(&'a self, id: ObjectId, registry: &'a CardRegistry) -> (r: Vec<&'a ContinuousEffect>)
        ensures
            r@.map_values(|e: &ContinuousEffect| *e) == self.spec_effects(id, registry),
    {
        let mut out: Vec<&ContinuousEffect> = Vec::new();
        let obj = match self.get_object(id) {
            Some(o) => o,
            None => {
                assert(out@.map_values(|e: &ContinuousEffect| *e) =~= Seq::<ContinuousEffect>::empty());
                return out;
            },
        };
        let ghost face: Seq<ContinuousEffect> = match self.spec_face(id, registry) {
            Some(d) => d.continuous_effects@,
            None => Seq::empty(),
        };
        match self.face_data(id, registry) {
            Some(d) => {
                let mut i: usize = 0;
                while i < d.continuous_effects.len()
                    invariant
                        i <= d.continuous_effects@.len(),
                        out@.len() == i,
                        forall|k: int| 0 <= k < i ==> *out@[k] == d.continuous_effects@[k],
                    decreases d.continuous_effects@.len() - i,
                {
                    out.push(&d.continuous_effects[i]);
                    i = i + 1;
                }
                assert(out@.map_values(|e: &ContinuousEffect| *e) =~= face);
            },
            None => {
                assert(out@.map_values(|e: &ContinuousEffect| *e) =~= Seq::<ContinuousEffect>::empty());
            },
        }
        match &obj.instance_continuous_effects {
            Some(v) => {
                let mut j: usize = 0;
                while j < v.len()
                    invariant
                        j <= v@.len(),
                        out@.len() == face.len() + j,
                        forall|k: int| 0 <= k < face.len() ==> *out@[k] == face[k],
                        forall|k: int| 0 <= k < j ==> *out@[face.len() + k] == v@[k],
                    decreases v@.len() - j,
                {
                    out.push(&v[j]);
                    j = j + 1;
                }
                assert(out@.map_values(|e: &ContinuousEffect| *e) =~= face + v@);
            },
            None => {
                assert(out@.map_values(|e: &ContinuousEffect| *e) =~= face);
            },
        }
        out
    }

    /// The triggered abilities on the face that is up.
    pub fn triggered_abilities_of<'a>(&self, id: ObjectId, registry: &'a CardRegistry) -> (r: Vec<&'a TriggeredAbilityDef>)
        ensures
            r@.map_values(|t: &TriggeredAbilityDef| *t) == (match self.spec_face(id, registry) {
                Some(d) => d.triggered_abilities@,
                None => Seq::empty(),
            }),
    {
        let mut out: Vec<&TriggeredAbilityDef> = Vec::new();
        match self.face_data(id, registry) {
            Some(d) => {
                let mut i: usize = 0;
                while i < d.triggered_abilities.len()
                    invariant
                        i <= d.triggered_abilities@.len(),
                        out@.len() == i,
                        forall|k: int| 0 <= k < i ==> *out@[k] == d.triggered_abilities@[k],
                    decreases d.triggered_abilities@.len() - i,
                {
                    out.push(&d.triggered_abilities[i]);
                    i = i + 1;
                }
                assert(out@.map_values(|t: &TriggeredAbilityDef| *t) =~= d.triggered_abilities@);
            },
            None => {
                assert(out@.map_values(|t: &TriggeredAbilityDef| *t) =~= Seq::<TriggeredAbilityDef>::empty());
            },
        }
        out
    }
}

} // verus!
