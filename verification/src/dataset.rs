//! Dataset construction and traversal: filling a vector with bounded draws
//! from a seeded engine, and summing a vector repeatedly.

use vstd::prelude::*;
use crate::engine::Mt19937;
use crate::model::{draw_result, fresh, Model};

verus! {

/// The outputs `rs` are exactly the successive bounded draws over
/// `[min, max]` that lead from model `m1` to model `m2`.
pub open spec fn draws_seq(m1: Model, min: i32, max: i32, rs: Seq<i32>, m2: Model) -> bool
    decreases rs.len(),
{
    if rs.len() == 0 {
        m2 == m1
    } else {
        exists|mid: Model|
            {
                &&& #[trigger] draw_result(m1, min, max, rs[0], mid)
                &&& draws_seq(mid, min, max, rs.drop_first(), m2)
            }
    }
}

/// Appending one more draw to a run of draws gives a run of draws.
pub proof fn lemma_draws_seq_push(
    m1: Model,
    min: i32,
    max: i32,
    rs: Seq<i32>,
    m2: Model,
    x: i32,
    m3: Model,
)
    requires
        draws_seq(m1, min, max, rs, m2),
        draw_result(m2, min, max, x, m3),
    ensures
        draws_seq(m1, min, max, rs.push(x), m3),
    decreases rs.len(),
{
    if rs.len() == 0 {
        assert(rs.push(x)[0] == x);
        assert(rs.push(x).drop_first() =~= Seq::<i32>::empty());
        assert(draw_result(m1, min, max, rs.push(x)[0], m3));
        assert(draws_seq(m3, min, max, rs.push(x).drop_first(), m3));
    } else {
        let mid = choose|mid: Model|
            {
                &&& #[trigger] draw_result(m1, min, max, rs[0], mid)
                &&& draws_seq(mid, min, max, rs.drop_first(), m2)
            };
        lemma_draws_seq_push(mid, min, max, rs.drop_first(), m2, x, m3);
        assert(rs.push(x)[0] == rs[0]);
        assert(rs.push(x).drop_first() =~= rs.drop_first().push(x));
        assert(draw_result(m1, min, max, rs.push(x)[0], mid));
        assert(draws_seq(mid, min, max, rs.push(x).drop_first(), m3));
    }
}

/// A run of draws is deterministic: from one starting model, runs of equal
/// length have equal outputs and equal final models. With
/// [`generate_source`]'s contract this makes the whole dataset a function
/// of seed, size and range.
pub proof fn lemma_draws_seq_deterministic(
    m1: Model,
    min: i32,
    max: i32,
    rs1: Seq<i32>,
    m2a: Model,
    rs2: Seq<i32>,
    m2b: Model,
)
    requires
        draws_seq(m1, min, max, rs1, m2a),
        draws_seq(m1, min, max, rs2, m2b),
        rs1.len() == rs2.len(),
    ensures
        rs1 == rs2,
        m2a == m2b,
    decreases rs1.len(),
{
    if rs1.len() == 0 {
        assert(rs1 =~= rs2);
    } else {
        let mid1 = choose|mid: Model|
            #[trigger] draw_result(m1, min, max, rs1[0], mid) && draws_seq(
                mid,
                min,
                max,
                rs1.drop_first(),
                m2a,
            );
        let mid2 = choose|mid: Model|
            #[trigger] draw_result(m1, min, max, rs2[0], mid) && draws_seq(
                mid,
                min,
                max,
                rs2.drop_first(),
                m2b,
            );
        crate::model::lemma_draw_result_deterministic(m1, min, max, rs1[0], mid1, rs2[0], mid2);
        lemma_draws_seq_deterministic(mid1, min, max, rs1.drop_first(), m2a, rs2.drop_first(), m2b);
        assert forall|i: int| 0 <= i < rs1.len() implies rs1[i] == rs2[i] by {
            if i > 0 {
                assert(rs1[i] == rs1.drop_first()[i - 1]);
                assert(rs2[i] == rs2.drop_first()[i - 1]);
            }
        }
        assert(rs1 =~= rs2);
    }
}

/// Fills a vector with `size` bounded draws over `[min_v, max_v]` from an
/// engine freshly seeded with `seed`. The result is exactly the run of
/// draws out of the seeded model, so equal arguments give equal vectors.
pub fn generate_source(seed: u64, size: usize, min_v: i32, max_v: i32) -> (r: Vec<i32>)
    requires
        min_v <= max_v,
    ensures
        r@.len() == size,
        forall|i: int| 0 <= i < size ==> min_v <= #[trigger] r@[i] <= max_v,
        exists|m2: Model| draws_seq(fresh(seed), min_v, max_v, r@, m2),
{
    let mut rng = Mt19937::new(seed);
    let mut out: Vec<i32> = Vec::new();
    let mut i: usize = 0;
    while i < size
        invariant
            min_v <= max_v,
            i <= size,
            out@.len() == i,
            rng@.wf(),
            forall|j: int| 0 <= j < i ==> min_v <= #[trigger] out@[j] <= max_v,
            draws_seq(fresh(seed), min_v, max_v, out@, rng@),
        decreases size - i,
    {
        let ghost prev_out: Seq<i32> = out@;
        let ghost prev_m: Model = rng@;
        let v = rng.next_i32_range(min_v, max_v);
        out.push(v);
        i = i + 1;
        proof {
            lemma_draws_seq_push(fresh(seed), min_v, max_v, prev_out, prev_m, v, rng@);
        }
    }
    out
}

/// The sum of a sequence of 32-bit integers, as an unbounded integer.
pub open spec fn sum_i32(s: Seq<i32>) -> int
    decreases s.len(),
{
    if s.len() == 0 {
        0
    } else {
        sum_i32(s.drop_last()) + s.last()
    }
}

/// The sum of `n` 32-bit integers lies within `n` times the magnitude bound
/// of one of them.
pub proof fn lemma_sum_i32_bound(s: Seq<i32>)
    ensures
        -(s.len() * 0x8000_0000) <= sum_i32(s) <= s.len() * 0x8000_0000,
    decreases s.len(),
{
    if s.len() > 0 {
        lemma_sum_i32_bound(s.drop_last());
    }
}

/// Reads the vector sequentially `repeats` times, summing every element
/// into a 64-bit accumulator, and returns the grand total: exactly
/// `repeats` times the sum of the vector.
pub fn read_sequential(v: &Vec<i32>, repeats: usize) -> (r: i64)
    requires
        repeats * v@.len() * 0x8000_0000 <= i64::MAX,
    ensures
        r == repeats * sum_i32(v@),
{
    let mut total: i64 = 0;
    let mut k: usize = 0;
    while k < repeats
        invariant
            k <= repeats,
            repeats * v@.len() * 0x8000_0000 <= i64::MAX,
            total == k * sum_i32(v@),
        decreases repeats - k,
    {
        let mut s: i64 = 0;
        let mut j: usize = 0;
        proof {
            lemma_sum_i32_bound(v@);
            assert(v@.len() * 0x8000_0000 <= repeats * v@.len() * 0x8000_0000) by (nonlinear_arith)
                requires
                    k < repeats,
                    0 <= v@.len(),
            ;
        }
        while j < v.len()
            invariant
                j <= v@.len(),
                v@.len() * 0x8000_0000 <= i64::MAX,
                s == sum_i32(v@.take(j as int)),
            decreases v@.len() - j,
        {
            proof {
                lemma_sum_i32_bound(v@.take(j as int));
                assert(v@.take(j as int).len() * 0x8000_0000 <= (v@.len() - 1) * 0x8000_0000);
                assert(v@.take(j as int + 1).drop_last() =~= v@.take(j as int));
                assert(v@.take(j as int + 1).last() == v@[j as int]);
            }
            s = s + (v[j] as i64);
            j = j + 1;
        }
        proof {
            assert(v@.take(v@.len() as int) =~= v@);
            lemma_sum_i32_bound(v@);
            assert((k + 1) * sum_i32(v@) == k * sum_i32(v@) + sum_i32(v@)) by (nonlinear_arith);
            assert(-((k + 1) * (v@.len() * 0x8000_0000)) <= (k + 1) * sum_i32(v@) <= (k + 1) * (
            v@.len() * 0x8000_0000)) by (nonlinear_arith)
                requires
                    -(v@.len() * 0x8000_0000) <= sum_i32(v@) <= v@.len() * 0x8000_0000,
                    0 <= k,
            ;
            assert((k + 1) * (v@.len() * 0x8000_0000) <= repeats * v@.len() * 0x8000_0000)
                by (nonlinear_arith)
                requires
                    k < repeats,
                    0 <= v@.len(),
            ;
        }
        total = total + s;
        k = k + 1;
    }
    total
}

} // verus!
