//! The executable MT19937 engine, verified against the model in
//! [`crate::model`].

use vstd::prelude::*;
use crate::model::{
    Model, draw_result, first_accepted, fresh, lemma_next_n_add, lemma_next_wf, seed_word,
    seed_words, span_of, twist_upto, twist_word, twisted, zone_of, DRAW_ATTEMPTS, LOWER_MASK, M,
    MATRIX_A, N, UPPER_MASK,
};

verus! {

/// A 32-bit Mersenne Twister pseudo-random number generator.
///
/// The engine owns a 624-word register array and a cursor; extraction
/// methods mutate both in place. Its abstract value (`@`) is a [`Model`],
/// and every extraction method states its result and the new model exactly,
/// so equal models yield equal output sequences.
pub struct Mt19937 {
    state: Vec<u32>,
    index: usize,
}

impl View for Mt19937 {
    type V = Model;

    closed spec fn view(&self) -> Model {
        Model { words: self.state@, index: self.index as int }
    }
}

impl Mt19937 {
    /// Initializes a generator from a 64-bit seed. Equal seeds yield equal
    /// engines, and therefore identical output sequences.
    pub fn new(seed: u64) -> (r: Self)
        ensures
            r@ == fresh(seed),
            r@.wf(),
    {
        let mut mt = Self { state: vec![0u32; N], index: N };
        mt.reseed(seed);
        mt
    }

    /// Overwrites the state with the words seeded from `seed` and marks the
    /// block exhausted, so the next extraction twists first.
    fn reseed(&mut self, seed: u64)
        requires
            old(self).state@.len() == N,
        ensures
            final(self)@ == fresh(seed),
            final(self)@.wf(),
    {
        let seed32 = #[verifier::truncate] ((seed ^ (seed >> 32)) as u32);
        self.state[0] = seed32;
        let mut i: usize = 1;
        while i < N
            invariant
                1 <= i <= N,
                self.state@.len() == N,
                forall|j: int| 0 <= j < i ==> self.state@[j] == seed_word(seed, j as nat),
            decreases N - i,
        {
            let prev = self.state[i - 1];
            self.state[i] = 1812433253u32.wrapping_mul(prev ^ (prev >> 30)).wrapping_add(
                i as u32,
            );
            i = i + 1;
        }
        self.index = N;
        proof {
            assert(self.state@ =~= seed_words(seed));
        }
    }

    /// Regenerates the whole state array in place from its current contents
    /// and resets the cursor to 0.
    fn twist(&mut self)
        requires
            old(self)@.wf(),
        ensures
            final(self)@.words == twisted(old(self)@.words),
            final(self)@.index == 0,
            final(self)@.wf(),
    {
        let ghost orig: Seq<u32> = self.state@;
        let mut i: usize = 0;
        while i < N
            invariant
                0 <= i <= N,
                orig.len() == N,
                self.state@.len() == N,
                self.state@ == twist_upto(orig, i as int),
            decreases N - i,
        {
            let x = (self.state[i] & UPPER_MASK) | (self.state[(i + 1) % N] & LOWER_MASK);
            let mut xa = x >> 1u32;
            if x & 1 != 0 {
                xa = xa ^ MATRIX_A;
            }
            let v = self.state[(i + M) % N] ^ xa;
            proof {
                assert(v == twist_word(twist_upto(orig, i as int), i as int));
            }
            self.state[i] = v;
            proof {
                assert(self.state@ == twist_upto(orig, i as int + 1));
            }
            i = i + 1;
        }
        self.index = 0;
    }

    /// Extracts the next 32-bit value: twists first if the block is
    /// exhausted, then returns the tempered word under the cursor and
    /// advances the cursor.
    pub fn next_u32(&mut self) -> (r: u32)
        requires
            old(self)@.wf(),
        ensures
            final(self)@.wf(),
            r == old(self)@.out(),
            final(self)@ == old(self)@.next(),
    {
        proof {
            lemma_next_wf(old(self)@);
        }
        if self.index >= N {
            self.twist();
        }
        let y0 = self.state[self.index];
        self.index = self.index + 1;
        let y1 = y0 ^ (y0 >> 11);
        let y2 = y1 ^ ((y1 << 7) & 0x9D2C_5680);
        let y3 = y2 ^ ((y2 << 15) & 0xEFC6_0000);
        y3 ^ (y3 >> 18)
    }

    /// Extracts the next 64-bit value by composing exactly two 32-bit
    /// extractions: the first becomes the high word, the second the low
    /// word.
    pub fn next_u64(&mut self) -> (r: u64)
        requires
            old(self)@.wf(),
        ensures
            final(self)@.wf(),
            r == old(self)@.out64(),
            r == ((old(self)@.out() as u64) << 32) | (old(self)@.next().out() as u64),
            final(self)@ == old(self)@.next().next(),
    {
        let hi = self.next_u32();
        let lo = self.next_u32();
        ((hi as u64) << 32) | (lo as u64)
    }

    /// Draws a uniform integer from the inclusive range `[min, max]` by
    /// rejection sampling over 64-bit draws: values in the rejection zone
    /// are redrawn so the result carries no modulo bias. The redraw loop is
    /// bounded by `DRAW_ATTEMPTS`; since each draw is rejected with
    /// probability below 2^-32, the bound is unreachable in practice, and on
    /// that path the last draw is reduced without the zone test.
    pub fn next_i32_range(&mut self, min: i32, max: i32) -> (r: i32)
        requires
            old(self)@.wf(),
            min <= max,
        ensures
            final(self)@.wf(),
            min <= r <= max,
            min == max ==> r == min,
            draw_result(old(self)@, min, max, r, final(self)@),
    {
        let ghost m0: Model = old(self)@;
        let span = ((max as i64) - (min as i64) + 1) as u64;
        let zone = u64::MAX - (u64::MAX % span);
        let mut value = self.next_u64();
        let mut tries: u64 = 1;
        proof {
            reveal_with_fuel(Model::next_n, 3);
            assert(self@ == m0.next_n(2));
            assert(value == m0.u64_at(0));
        }
        while value >= zone && tries < DRAW_ATTEMPTS
            invariant
                min <= max,
                span as int == span_of(min, max),
                zone as int == zone_of(min, max),
                1 <= tries <= DRAW_ATTEMPTS,
                self@.wf(),
                self@ == m0.next_n((2 * tries) as nat),
                value == m0.u64_at((tries - 1) as nat),
                forall|j: nat| j < tries - 1 ==> m0.u64_at(j) >= zone_of(min, max),
            decreases DRAW_ATTEMPTS - tries,
        {
            proof {
                reveal_with_fuel(Model::next_n, 3);
                lemma_next_n_add(m0, (2 * tries) as nat, 2);
            }
            value = self.next_u64();
            tries = tries + 1;
        }
        let offset = (value % span) as i64;
        let result = (min as i64) + offset;
        proof {
            let k = (tries - 1) as nat;
            if value < zone {
                assert(first_accepted(m0, min, max, k));
                assert(self@ == m0.next_n(2 * (k + 1)));
            } else {
                assert(tries == DRAW_ATTEMPTS);
                assert(forall|j: nat| j < DRAW_ATTEMPTS ==> m0.u64_at(j) >= zone_of(min, max));
            }
        }
        result as i32
    }
}

} // verus!
