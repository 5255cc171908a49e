//! Global properties of the generator, stated and proved over the model
//! that the engine's contracts speak of.

use vstd::prelude::*;
use crate::model::{
    fresh, lemma_next_n_add, lemma_twist_upto_len, seed_words, temper, twisted, Model, N,
};

verus! {

/// Determinism: the output stream is a function of the seed alone. Two
/// engines freshly constructed from equal seeds have equal models
/// (`Mt19937::new` ensures `r@ == fresh(seed)`), and since every extraction
/// is an exact function of the model, the two engines produce identical
/// output sequences of any length.
pub proof fn lemma_fresh_stream_deterministic(s1: u64, s2: u64, n: nat)
    requires
        s1 == s2,
    ensures
        fresh(s1).stream(n) == fresh(s2).stream(n),
{
}

/// One extraction peels the first element off the stream: the `n + 1`-draw
/// stream is the next output followed by the `n`-draw stream of the
/// advanced model. This is what lets a caller identify `n` successive
/// `next_u32` results with `stream(n)`.
pub proof fn lemma_stream_step(m: Model, n: nat)
    ensures
        m.stream(n + 1) == m.stream(n).push(m.out_at(n)),
        m.stream(n + 1).first() == m.out(),
        forall|i: nat| i < n ==> m.next().out_at(i) == m.out_at(i + 1),
{
    assert(m.stream(n + 1) =~= m.stream(n).push(m.out_at(n)));
    assert(m.next_n(0).out() == m.out());
    assert forall|i: nat| i < n implies m.next().out_at(i) == m.out_at(i + 1) by {
        lemma_next_n_add(m, 1, i);
        assert(m.next_n(1) == m.next());
    }
}

/// A run of extractions that stays inside the current block only moves the
/// cursor: no twist happens while `index + k` stays at most `N`.
pub proof fn lemma_in_block_run(m: Model, k: nat)
    requires
        m.wf(),
        m.index + k <= N,
    ensures
        m.next_n(k) == (Model { words: m.words, index: m.index + k }),
    decreases k,
{
    if k > 0 {
        lemma_in_block_run(m, (k - 1) as nat);
    } else {
        assert(m.next_n(0) == m);
    }
}

/// Block transition: a freshly seeded engine twists exactly once for its
/// first 624 extractions. After exactly 624 extractions the words are the
/// once-twisted seed words and the cursor is back at the exhaustion mark,
/// so the 625th extraction is the first to come out of a second twist.
pub proof fn lemma_twist_boundary(seed: u64)
    ensures
        fresh(seed).next_n(N as nat) == (Model {
            words: twisted(seed_words(seed)),
            index: N as int,
        }),
        fresh(seed).out_at(N as nat) == temper(twisted(twisted(seed_words(seed)))[0]),
{
    let m = fresh(seed);
    lemma_twist_upto_len(seed_words(seed), N as int);
    let after_one = Model { words: twisted(seed_words(seed)), index: 1 };
    assert(m.next_n(1) == m.next_n(0).next());
    assert(m.next_n(0) == m);
    assert(m.next() == after_one);
    lemma_next_n_add(m, 1, (N - 1) as nat);
    lemma_in_block_run(after_one, (N - 1) as nat);
    let spent = Model { words: twisted(seed_words(seed)), index: N as int };
    assert(m.next_n(N as nat) == spent);
    lemma_twist_upto_len(twisted(seed_words(seed)), N as int);
    assert(fresh(seed).out_at(N as nat) == temper(twisted(twisted(seed_words(seed)))[0]));
}

} // verus!
