//! Mathematical model of the MT19937 engine: the seeded state array, the
//! twist recurrence, tempering, and the resulting output stream, all as
//! spec-level functions of the seed alone.

use vstd::prelude::*;
use vstd::wrapping::u32_specs;

verus! {

/// Number of 32-bit words in the engine state.
pub const N: usize = 624;
/// Offset of the partner word in the twist recurrence.
pub const M: usize = 397;
/// Twist matrix constant.
pub const MATRIX_A: u32 = 0x9908_B0DF;
/// Mask selecting the most significant bit of a word.
pub const UPPER_MASK: u32 = 0x8000_0000;
/// Mask selecting the 31 least significant bits of a word.
pub const LOWER_MASK: u32 = 0x7FFF_FFFF;
/// Upper bound on the number of 64-bit draws one bounded draw may consume.
/// Each draw is rejected with probability below 2^-32, so the bound is
/// unreachable in practice; it exists so that every draw provably
/// terminates.
pub const DRAW_ATTEMPTS: u64 = 10_000;

/// Word `i` of the freshly seeded state: word 0 folds the 64-bit seed to 32
/// bits, and each later word follows the standard linear congruential
/// seeding recurrence, with all arithmetic wrapping modulo 2^32.
pub open spec fn seed_word(seed: u64, i: nat) -> u32
    decreases i,
{
    if i == 0 {
        (seed ^ (seed >> 32)) as u32
    } else {
        let prev = seed_word(seed, (i - 1) as nat);
        u32_specs::wrapping_add(
            u32_specs::wrapping_mul(1812433253u32, prev ^ (prev >> 30)),
            i as u32,
        )
    }
}

/// The full 624-word state produced by seeding with `seed`.
pub open spec fn seed_words(seed: u64) -> Seq<u32> {
    Seq::new(N as nat, |i: int| seed_word(seed, i as nat))
}

/// The word written at position `i` by the twist pass, given the array
/// contents `cur` as they stand when position `i` is reached: the top bit of
/// `cur[i]` joins the low 31 bits of the following word, the mix is shifted
/// right and conditionally folded with the twist matrix, and the partner
/// word 397 positions ahead (modulo 624) is XORed in. Positions that wrap
/// around read words already rewritten earlier in the same pass, the
/// standard in-place Mersenne Twister ordering.
pub open spec fn twist_word(cur: Seq<u32>, i: int) -> u32 {
    let x = (cur[i] & UPPER_MASK) | (cur[(i + 1) % (N as int)] & LOWER_MASK);
    let xa = if x & 1 != 0 {
        (x >> 1) ^ MATRIX_A
    } else {
        x >> 1
    };
    cur[(i + M as int) % (N as int)] ^ xa
}

/// The state array after the twist pass has rewritten positions `0..n` of
/// `s`, in order.
pub open spec fn twist_upto(s: Seq<u32>, n: int) -> Seq<u32>
    decreases n,
{
    if n <= 0 {
        s
    } else {
        let p = twist_upto(s, n - 1);
        p.update(n - 1, twist_word(p, n - 1))
    }
}

/// The state array after one full twist pass.
pub open spec fn twisted(s: Seq<u32>) -> Seq<u32> {
    twist_upto(s, N as int)
}

/// The tempering transform applied to a raw state word before it is
/// returned: a fixed sequence of shift, mask and XOR steps.
pub open spec fn temper(y: u32) -> u32 {
    let y1 = y ^ (y >> 11);
    let y2 = y1 ^ ((y1 << 7) & 0x9D2C_5680);
    let y3 = y2 ^ ((y2 << 15) & 0xEFC6_0000);
    y3 ^ (y3 >> 18)
}

/// The engine state as mathematics: the word array and the cursor.
/// A cursor equal to `N` means the current block is exhausted and the next
/// extraction must twist first.
pub ghost struct Model {
    pub words: Seq<u32>,
    pub index: int,
}

impl Model {
    /// A model is well formed when it has exactly `N` words and the cursor
    /// lies in the inclusive range `[0, N]`.
    pub open spec fn wf(self) -> bool {
        self.words.len() == N && 0 <= self.index <= N
    }

    /// The model with any pending twist performed: if the block is
    /// exhausted, the words are twisted and the cursor returns to 0;
    /// otherwise the model is unchanged.
    pub open spec fn norm(self) -> Model {
        if self.index == N {
            Model { words: twisted(self.words), index: 0 }
        } else {
            self
        }
    }

    /// The 32-bit value the next extraction returns.
    pub open spec fn out(self) -> u32 {
        temper(self.norm().words[self.norm().index])
    }

    /// The model after one 32-bit extraction.
    pub open spec fn next(self) -> Model {
        let n = self.norm();
        Model { words: n.words, index: n.index + 1 }
    }

    /// The model after `k` 32-bit extractions.
    pub open spec fn next_n(self, k: nat) -> Model
        decreases k,
    {
        if k == 0 {
            self
        } else {
            self.next_n((k - 1) as nat).next()
        }
    }

    /// The `k`-th 32-bit value extracted from this model (counting from 0).
    pub open spec fn out_at(self, k: nat) -> u32 {
        self.next_n(k).out()
    }

    /// The first `n` 32-bit values extracted from this model.
    pub open spec fn stream(self, n: nat) -> Seq<u32> {
        Seq::new(n, |i: int| self.out_at(i as nat))
    }

    /// The 64-bit value the next 64-bit extraction returns: two consecutive
    /// 32-bit extractions, the first as the high word.
    pub open spec fn out64(self) -> u64 {
        ((self.out() as u64) << 32) | (self.next().out() as u64)
    }

    /// The `k`-th 64-bit value extracted from this model: each one consumes
    /// two 32-bit extractions.
    pub open spec fn u64_at(self, k: nat) -> u64 {
        self.next_n(2 * k).out64()
    }
}

/// The model of a freshly constructed engine: seeded words, cursor at `N`
/// so that the first extraction twists.
pub open spec fn fresh(seed: u64) -> Model {
    Model { words: seed_words(seed), index: N as int }
}

/// The inclusive size of the range `[min, max]`.
pub open spec fn span_of(min: i32, max: i32) -> int {
    max - min + 1
}

/// The rejection threshold for a bounded draw over `[min, max]`: 64-bit
/// values at or above it are redrawn, so that the accepted values map to the
/// range without modulo bias.
pub open spec fn zone_of(min: i32, max: i32) -> int {
    u64::MAX as int - (u64::MAX as int % span_of(min, max))
}

/// The `k`-th 64-bit draw from `m` is the first one a bounded draw over
/// `[min, max]` accepts: every earlier draw falls in the rejection zone and
/// draw `k` does not.
pub open spec fn first_accepted(m: Model, min: i32, max: i32, k: nat) -> bool {
    &&& m.u64_at(k) < zone_of(min, max)
    &&& forall|j: nat| j < k ==> m.u64_at(j) >= zone_of(min, max)
}

/// Exact description of one bounded draw over `[min, max]` starting from
/// model `m1`: either some draw among the first `DRAW_ATTEMPTS` is accepted
/// and the first such draw, reduced modulo the span, gives the result; or
/// every one of the `DRAW_ATTEMPTS` draws is rejected and the last of them
/// is reduced anyway. Either way `m2` is the model after the consumed
/// draws.
pub open spec fn draw_result(m1: Model, min: i32, max: i32, r: i32, m2: Model) -> bool {
    ||| exists|k: nat|
        {
            &&& #[trigger] first_accepted(m1, min, max, k)
            &&& k < DRAW_ATTEMPTS
            &&& r as int == min + (m1.u64_at(k) as int) % span_of(min, max)
            &&& m2 == m1.next_n(2 * (k + 1))
        }
    ||| {
        &&& (forall|j: nat| j < DRAW_ATTEMPTS ==> m1.u64_at(j) >= zone_of(min, max))
        &&& r as int == min + (m1.u64_at((DRAW_ATTEMPTS - 1) as nat) as int) % span_of(min, max)
        &&& m2 == m1.next_n((2 * DRAW_ATTEMPTS) as nat)
    }
}

/// At most one draw can be the first accepted one.
pub proof fn lemma_first_accepted_unique(m: Model, min: i32, max: i32, k1: nat, k2: nat)
    requires
        first_accepted(m, min, max, k1),
        first_accepted(m, min, max, k2),
    ensures
        k1 == k2,
{
    if k1 < k2 {
        assert(m.u64_at(k1) >= zone_of(min, max));
    }
    if k2 < k1 {
        assert(m.u64_at(k2) >= zone_of(min, max));
    }
}

/// A bounded draw is deterministic: from one starting model, only one
/// result and one final model satisfy `draw_result`. Together with the
/// engine's exact construction contract this makes every bounded draw a
/// function of the seed and the draws before it.
pub proof fn lemma_draw_result_deterministic(
    m1: Model,
    min: i32,
    max: i32,
    r1: i32,
    m2a: Model,
    r2: i32,
    m2b: Model,
)
    requires
        draw_result(m1, min, max, r1, m2a),
        draw_result(m1, min, max, r2, m2b),
    ensures
        r1 == r2,
        m2a == m2b,
{
    if exists|k: nat| #[trigger] first_accepted(m1, min, max, k) && k < DRAW_ATTEMPTS {
        let k = choose|k: nat| #[trigger] first_accepted(m1, min, max, k) && k < DRAW_ATTEMPTS;
        let k1 = choose|k1: nat|
            first_accepted(m1, min, max, k1) && k1 < DRAW_ATTEMPTS && r1 as int == min + (
            m1.u64_at(k1) as int) % span_of(min, max) && m2a == m1.next_n(2 * (k1 + 1));
        let k2 = choose|k2: nat|
            first_accepted(m1, min, max, k2) && k2 < DRAW_ATTEMPTS && r2 as int == min + (
            m1.u64_at(k2) as int) % span_of(min, max) && m2b == m1.next_n(2 * (k2 + 1));
        lemma_first_accepted_unique(m1, min, max, k1, k);
        lemma_first_accepted_unique(m1, min, max, k2, k);
    }
}

/// A twist pass never changes the number of words.
pub proof fn lemma_twist_upto_len(s: Seq<u32>, n: int)
    requires
        n <= s.len(),
    ensures
        twist_upto(s, n).len() == s.len(),
    decreases n,
{
    if n > 0 {
        lemma_twist_upto_len(s, n - 1);
        let p = twist_upto(s, n - 1);
        assert(twist_upto(s, n) == p.update(n - 1, twist_word(p, n - 1)));
    }
}

/// One extraction preserves well-formedness, and the normalized cursor is a
/// valid read position.
pub proof fn lemma_next_wf(m: Model)
    requires
        m.wf(),
    ensures
        m.norm().wf(),
        m.norm().index < N,
        m.next().wf(),
{
    if m.index == N {
        lemma_twist_upto_len(m.words, N as int);
    }
}

/// Any number of extractions preserves well-formedness.
pub proof fn lemma_next_n_wf(m: Model, k: nat)
    requires
        m.wf(),
    ensures
        m.next_n(k).wf(),
    decreases k,
{
    if k > 0 {
        lemma_next_n_wf(m, (k - 1) as nat);
        lemma_next_wf(m.next_n((k - 1) as nat));
    }
}

/// Extraction counts compose: `a + b` extractions are `a` extractions
/// followed by `b` more.
pub proof fn lemma_next_n_add(m: Model, a: nat, b: nat)
    ensures
        m.next_n(a + b) == m.next_n(a).next_n(b),
    decreases b,
{
    if b > 0 {
        lemma_next_n_add(m, a, (b - 1) as nat);
    }
}

} // verus!
