use vstd::prelude::*;
use crate::ids::ObjectId;

verus! {

/// The sum of a sequence of integers.
pub open spec fn sum_of(s: Seq<int>) -> int
    decreases s.len(),
{
    if s.len() == 0 {
        0
    } else {
        sum_of(s.drop_last()) + s.last()
    }
}

/// Summing one more element of a prefix adds that element.
pub proof fn lemma_sum_take_step(s: Seq<int>, i: int)
    requires
        0 <= i < s.len(),
    ensures
        sum_of(s.take(i + 1)) == sum_of(s.take(i)) + s[i],
{
    assert(s.take(i + 1).drop_last() =~= s.take(i));
}

/// A sum of naturals is at least each of its prefixes' sums.
pub proof fn lemma_sum_prefix_le(s: Seq<int>, i: int)
    requires
        0 <= i <= s.len(),
        forall|j: int| 0 <= j < s.len() ==> s[j] >= 0,
    ensures
        0 <= sum_of(s.take(i)) <= sum_of(s),
    decreases s.len() - i,
{
    lemma_sum_nonneg(s.take(i));
    if i < s.len() {
        lemma_sum_take_step(s, i);
        lemma_sum_prefix_le(s, i + 1);
    } else {
        assert(s.take(i) =~= s);
        lemma_sum_nonneg(s);
    }
}

/// A sum of naturals is a natural.
pub proof fn lemma_sum_nonneg(s: Seq<int>)
    requires
        forall|j: int| 0 <= j < s.len() ==> s[j] >= 0,
    ensures
        sum_of(s) >= 0,
    decreases s.len(),
{
    if s.len() > 0 {
        lemma_sum_nonneg(s.drop_last());
    }
}

/// The whole sequence is its longest prefix.
pub proof fn lemma_take_full<A>(s: Seq<A>)
    ensures
        s.take(s.len() as int) == s,
{
    assert(s.take(s.len() as int) =~= s);
}

/// Removing an element from a sequence takes it out of the sum.
pub proof fn lemma_sum_remove(s: Seq<int>, i: int)
    requires
        0 <= i < s.len(),
    ensures
        sum_of(s.remove(i)) == sum_of(s) - s[i],
    decreases s.len(),
{
    if i == s.len() - 1 {
        assert(s.remove(i) =~= s.drop_last());
    } else {
        assert(s.remove(i).drop_last() =~= s.drop_last().remove(i));
        assert(s.remove(i).last() == s.last());
        lemma_sum_remove(s.drop_last(), i);
    }
}

/// Each element of a sum of naturals is at most the sum.
pub proof fn lemma_elem_le_sum(s: Seq<int>, i: int)
    requires
        0 <= i < s.len(),
        forall|j: int| 0 <= j < s.len() ==> s[j] >= 0,
    ensures
        s[i] <= sum_of(s),
{
    lemma_sum_remove(s, i);
    let r = s.remove(i);
    assert forall|j: int| 0 <= j < r.len() implies r[j] >= 0 by {
        if j < i {
            assert(r[j] == s[j]);
        } else {
            assert(r[j] == s[j + 1]);
        }
    }
    lemma_sum_nonneg(r);
}

/// A sum is monotone in its terms.
pub proof fn lemma_sum_le(a: Seq<int>, b: Seq<int>)
    requires
        a.len() == b.len(),
        forall|j: int| 0 <= j < a.len() ==> a[j] <= b[j],
    ensures
        sum_of(a) <= sum_of(b),
    decreases a.len(),
{
    if a.len() > 0 {
        lemma_sum_le(a.drop_last(), b.drop_last());
    }
}

/// Whether two strings are equal, character for character.
pub fn str_eq(a: &str, b: &str) -> (r: bool)
    ensures
        r == (a@ == b@),
{
    let x = String::from_str(a);
    let y = String::from_str(b);
    x == y
}


/// The sequence without the entries keyed by `id`, in order.
pub open spec fn drop_key<V>(s: Seq<(ObjectId, V)>, id: ObjectId) -> Seq<(ObjectId, V)>
    decreases s.len(),
{
    if s.len() == 0 {
        Seq::empty()
    } else {
        drop_key(s.drop_last(), id) + if s.last().0 == id { Seq::empty() } else { seq![s.last()] }
    }
}

/// The sequence without `id`, in order.
pub open spec fn drop_id(s: Seq<ObjectId>, id: ObjectId) -> Seq<ObjectId>
    decreases s.len(),
{
    if s.len() == 0 {
        Seq::empty()
    } else {
        drop_id(s.drop_last(), id) + if s.last() == id { Seq::empty() } else { seq![s.last()] }
    }
}

/// Remove, in place and in order, every entry keyed by `id`.
pub fn remove_keyed<V>(v: &mut Vec<(ObjectId, V)>, id: ObjectId)
    ensures
        final(v)@ == drop_key(old(v)@, id),
{
    let ghost orig = v@;
    let mut i: usize = 0;
    let ghost mut k: int = 0;
    proof {
        assert(orig.take(0) =~= Seq::<(ObjectId, V)>::empty());
        assert(v@ =~= drop_key(orig.take(0), id) + orig.skip(0));
    }
    while i < v.len()
        invariant
            0 <= k <= orig.len(),
            v@ == drop_key(orig.take(k), id) + orig.skip(k),
            i == drop_key(orig.take(k), id).len(),
        decreases orig.len() - k,
    {
        proof {
            assert(orig.take(k + 1).drop_last() =~= orig.take(k));
            assert(v@[i as int] == orig[k]);
        }
        if v[i].0 == id {
            v.remove(i);
            proof {
                assert(v@ =~= drop_key(orig.take(k + 1), id) + orig.skip(k + 1));
            }
        } else {
            i = i + 1;
            proof {
                assert(v@ =~= drop_key(orig.take(k + 1), id) + orig.skip(k + 1));
            }
        }
        proof {
            k = k + 1;
        }
    }
    proof {
        assert(orig.take(k) =~= orig);
        assert(v@ =~= drop_key(orig, id));
    }
}

/// Remove, in place and in order, every occurrence of `id`.
pub fn remove_id(v: &mut Vec<ObjectId>, id: ObjectId)
    ensures
        final(v)@ == drop_id(old(v)@, id),
{
    let ghost orig = v@;
    let mut i: usize = 0;
    let ghost mut k: int = 0;
    proof {
        assert(orig.take(0) =~= Seq::<ObjectId>::empty());
        assert(v@ =~= drop_id(orig.take(0), id) + orig.skip(0));
    }
    while i < v.len()
        invariant
            0 <= k <= orig.len(),
            v@ == drop_id(orig.take(k), id) + orig.skip(k),
            i == drop_id(orig.take(k), id).len(),
        decreases orig.len() - k,
    {
        proof {
            assert(orig.take(k + 1).drop_last() =~= orig.take(k));
            assert(v@[i as int] == orig[k]);
        }
        if v[i] == id {
            v.remove(i);
            proof {
                assert(v@ =~= drop_id(orig.take(k + 1), id) + orig.skip(k + 1));
            }
        } else {
            i = i + 1;
            proof {
                assert(v@ =~= drop_id(orig.take(k + 1), id) + orig.skip(k + 1));
            }
        }
        proof {
            k = k + 1;
        }
    }
    proof {
        assert(orig.take(k) =~= orig);
        assert(v@ =~= drop_id(orig, id));
    }
}

/// Whether `id` occurs in the vector.
pub fn contains_id(v: &Vec<ObjectId>, id: ObjectId) -> (b: bool)
    ensures
        b == v@.contains(id),
{
    let mut i: usize = 0;
    while i < v.len()
        invariant
            i <= v@.len(),
            forall|j: int| 0 <= j < i ==> v@[j] != id,
        decreases v@.len() - i,
    {
        if v[i] == id {
            assert(v@[i as int] == id);
            return true;
        }
        i = i + 1;
    }
    false
}

/// A sequence with one more element contains what it did, and that element.
pub proof fn lemma_contains_push<T>(s: Seq<T>, x: T, y: T)
    ensures
        s.push(x).contains(y) == (s.contains(y) || x == y),
{
    let t = s.push(x);
    if s.contains(y) {
        let w = choose|w: int| 0 <= w < s.len() && s[w] == y;
        assert(t[w] == y);
    }
    if x == y {
        assert(t[s.len() as int] == y);
    }
    if t.contains(y) {
        let w = choose|w: int| 0 <= w < t.len() && t[w] == y;
        if w < s.len() {
            assert(s[w] == y);
        }
    }
}

} // verus!
