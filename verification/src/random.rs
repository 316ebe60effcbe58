//! The game's own random stream (SplitMix64), kept in the game state so a
//! game is a function of its seed: coin flips (CR 705.2), "at random"
//! choices (CR 701.9c) and shuffles (CR 701.20a) all draw from it.

use vstd::prelude::*;
use crate::ids::ObjectId;
use crate::state::GameState;

verus! {

/// The stream's state after one step.
pub open spec fn spec_rng_step(s: u64) -> u64 {
    vstd::wrapping::u64_specs::wrapping_add(s, 0x9E37_79B9_7F4A_7C15u64)
}

/// The number a state gives out.
pub open spec fn spec_rng_output(s: u64) -> u64 {
    let z1 = vstd::wrapping::u64_specs::wrapping_mul(s ^ (s >> 30u64), 0xBF58_476D_1CE4_E5B9u64);
    let z2 = vstd::wrapping::u64_specs::wrapping_mul(z1 ^ (z1 >> 27u64), 0x94D0_49BB_1331_11EBu64);
    z2 ^ (z2 >> 31u64)
}

/// The sequence with the elements at `i` and `j` exchanged.
pub open spec fn spec_swap<T>(s: Seq<T>, i: int, j: int) -> Seq<T> {
    s.update(i, s[j]).update(j, s[i])
}

/// Fisher-Yates from position `i` down to 1: the shuffled sequence and the
/// stream's state afterwards.
pub open spec fn spec_shuffle_from<T>(s: Seq<T>, rng: u64, i: int) -> (Seq<T>, u64)
    decreases i,
{
    if i < 1 {
        (s, rng)
    } else {
        let next = spec_rng_step(rng);
        let j = (spec_rng_output(next) % ((i + 1) as u64)) as int;
        spec_shuffle_from(spec_swap(s, i, j), next, i - 1)
    }
}

/// A whole sequence shuffled from the stream's state `rng`.
pub open spec fn spec_shuffle<T>(s: Seq<T>, rng: u64) -> (Seq<T>, u64) {
    spec_shuffle_from(s, rng, s.len() - 1)
}

/// Shuffling only exchanges elements, so the length stays.
pub proof fn lemma_shuffle_len<T>(s: Seq<T>, rng: u64, i: int)
    requires
        i < s.len(),
        s.len() <= u64::MAX,
    ensures
        spec_shuffle_from(s, rng, i).0.len() == s.len(),
    decreases i,
{
    if i >= 1 {
        let next = spec_rng_step(rng);
        let m = (i + 1) as u64;
        assert(m as int == i + 1);
        let j = (spec_rng_output(next) % m) as int;
        assert(0 <= j < i + 1);
        assert(spec_swap(s, i, j).len() == s.len());
        lemma_shuffle_len(spec_swap(s, i, j), next, i - 1);
    }
}

fn swap_in<T>(items: &mut Vec<T>, i: usize, j: usize)
    requires
        j <= i < old(items)@.len(),
    ensures
        final(items)@ == spec_swap(old(items)@, i as int, j as int),
{
    if i != j {
        let ghost s = old(items)@;
        let x = items.remove(i);
        let y = items.remove(j);
        items.insert(j, x);
        items.insert(i, y);
        assert(items@ =~= spec_swap(s, i as int, j as int));
    } else {
        assert(items@ =~= spec_swap(old(items)@, i as int, j as int));
    }
}

impl GameState {
    /// The next value from the game's random stream.
    pub fn next_random(&mut self) -> (r: u64)
        ensures
            r == spec_rng_output(spec_rng_step(old(self).rng_state)),
            *final(self) == (GameState { rng_state: spec_rng_step(old(self).rng_state), ..*old(self) }),
    {
        self.rng_state = self.rng_state.wrapping_add(0x9E37_79B9_7F4A_7C15u64);
        let mut z = self.rng_state;
        z = (z ^ (z >> 30u64)).wrapping_mul(0xBF58_476D_1CE4_E5B9u64);
        z = (z ^ (z >> 27u64)).wrapping_mul(0x94D0_49BB_1331_11EBu64);
        z ^ (z >> 31u64)
    }

    /// A random number below `bound`.
    pub fn random_below(&mut self, bound: u64) -> (r: u64)
        requires
            bound > 0,
        ensures
            r == spec_rng_output(spec_rng_step(old(self).rng_state)) % bound,
            r < bound,
            *final(self) == (GameState { rng_state: spec_rng_step(old(self).rng_state), ..*old(self) }),
    {
        self.next_random() % bound
    }

    /// Flip a coin (CR 705.2); true is winning the flip.
    pub fn flip_coin(&mut self) -> (r: bool)
        ensures
            r == (spec_rng_output(spec_rng_step(old(self).rng_state)) & 1u64 == 1u64),
            *final(self) == (GameState { rng_state: spec_rng_step(old(self).rng_state), ..*old(self) }),
    {
        self.next_random() & 1u64 == 1u64
    }

    /// Shuffle in place (CR 701.20a), Fisher-Yates over the game's stream.
    pub fn shuffle<T>(&mut self, items: &mut Vec<T>)
        ensures
            final(items)@ == spec_shuffle(old(items)@, old(self).rng_state).0,
            *final(self) == (GameState { rng_state: spec_shuffle(old(items)@, old(self).rng_state).1, ..*old(self) }),
    {
        let ghost s0 = old(items)@;
        let ghost r0 = old(self).rng_state;
        let ghost st0 = *old(self);
        if items.len() < 2 {
            return;
        }
        let mut i: usize = items.len() - 1;
        while i >= 1
            invariant
                i < items@.len(),
                items@.len() == s0.len(),
                items@.len() <= usize::MAX,
                spec_shuffle_from(items@, self.rng_state, i as int) == spec_shuffle(s0, r0),
                *self == (GameState { rng_state: self.rng_state, ..st0 }),
            decreases i,
        {
            assert(i < usize::MAX);
            let bound: u64 = i as u64 + 1;
            let j = self.random_below(bound) as usize;
            swap_in(items, i, j);
            i = i - 1;
        }
    }

    /// Choose up to `n` of `candidates` at random (CR 701.9c).
    pub fn choose_at_random(&mut self, candidates: &[ObjectId], n: usize) -> (r: Vec<ObjectId>)
        ensures
            r@ == spec_shuffle(candidates@, old(self).rng_state).0.take(
                if n < candidates@.len() { n as int } else { candidates@.len() as int }),
            *final(self) == (GameState { rng_state: spec_shuffle(candidates@, old(self).rng_state).1, ..*old(self) }),
    {
        let count: usize = candidates.len();
        let mut pool: Vec<ObjectId> = vstd::slice::slice_to_vec(candidates);
        self.shuffle(&mut pool);
        proof {
            if candidates@.len() > 0 {
                lemma_shuffle_len(candidates@, old(self).rng_state, candidates@.len() - 1);
            }
        }
        pool.truncate(n);
        assert(pool@ =~= spec_shuffle(candidates@, old(self).rng_state).0.take(
            if n < candidates@.len() { n as int } else { candidates@.len() as int }));
        pool
    }
}

} // verus!
