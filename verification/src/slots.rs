//! Grain voice allocator: a stack of free voice ids and a bitmap of active voices.
//! Every voice of the pool, `MAX_GRAINS` of them, has its own id.

use vstd::prelude::*;
use crate::bits::{bit_of, lemma_and_not_greater, lemma_clear_bit, lemma_clear_lowest, lemma_set_bit, lemma_zero_word};
use crate::config::MAX_GRAINS;

verus! {

/// The free stack of a freshly reset pool of `cap` voices: indices pushed from
/// `cap - 1` down to `0`, so that voice 0 is on top.
pub open spec fn initial_free(cap: nat) -> Seq<usize> {
    Seq::new(cap, |k: int| (cap - 1 - k) as usize)
}

/// Free-stack and bitmap bookkeeping of a grain pool.
pub struct GrainSlots {
    free: Vec<usize>,
    active: Vec<u64>,
}

impl GrainSlots {
    /// Number of voices: 64 per bitmap word.
    pub closed spec fn num_voices(&self) -> nat {
        (self.active@.len() * 64) as nat
    }

    /// The free stack, bottom first; the next voice handed out is the last element.
    pub closed spec fn free_ids(&self) -> Seq<usize> {
        self.free@
    }

    /// Voice `i` is active.
    pub closed spec fn is_active_at(&self, i: int) -> bool {
        0 <= i < self.num_voices() && bit_of(self.active@[i / 64], (i % 64) as u64)
    }

    /// Well-formedness, kept by every operation: the capacity fits a `usize` and every
    /// free id names a voice.
    #[verifier::type_invariant]
    pub closed spec fn wf(&self) -> bool {
        &&& self.active@.len() * 64 <= usize::MAX
        &&& forall|k: int| 0 <= k < self.free@.len() ==> (#[trigger] self.free@[k]) < self.num_voices()
    }

    /// Free stack and active set partition the voices: no id is free twice, no free id
    /// is active, and every voice is active or free.
    pub open spec fn partitioned(&self) -> bool {
        &&& self.free_ids().no_duplicates()
        &&& forall|k: int|
            0 <= k < self.free_ids().len() ==> !self.is_active_at(#[trigger] self.free_ids()[k] as int)
        &&& forall|i: int|
            0 <= i < self.num_voices() ==> self.is_active_at(i) || self.free_ids().contains(
                i as usize,
            )
    }

    proof fn lemma_word_index(i: usize)
        ensures
            i >> 6usize == i / 64,
            i & 63usize == i % 64,
    {
        assert(i >> 6usize == i / 64 && i & 63usize == i % 64) by (bit_vector);
    }

    /// A pool of `64 * words` voices, all free, none active.
    pub fn with_words(words: usize) -> (s: Self)
        requires
            words * 64 <= usize::MAX,
        ensures
            s.num_voices() == words * 64,
            s.free_ids() == initial_free(s.num_voices()),
            forall|i: int| !s.is_active_at(i),
            s.partitioned(),
    {
        let mut active: Vec<u64> = Vec::new();
        let mut w: usize = 0;
        while w < words
            invariant
                w <= words,
                active@.len() == w,
                forall|k: int| 0 <= k < w ==> active@[k] == 0u64,
            decreases words - w,
        {
            active.push(0u64);
            w = w + 1;
        }
        let mut s = GrainSlots { free: Vec::new(), active };
        s.refill_free();
        proof {
            assert forall|i: int| !s.is_active_at(i) by {
                if 0 <= i < s.num_voices() {
                    lemma_zero_word((i % 64) as u64);
                }
            }
            Self::lemma_fresh_partitioned(s);
        }
        s
    }

    proof fn lemma_fresh_partitioned(s: Self)
        requires
            s.wf(),
            s.free_ids() == initial_free(s.num_voices()),
            forall|i: int| !s.is_active_at(i),
        ensures
            s.partitioned(),
    {
        let cap = s.num_voices();
        let f = s.free_ids();
        assert forall|k: int| 0 <= k < cap implies f[k] as int == cap - 1 - k by {}
        assert forall|a: int, b: int|
            0 <= a < f.len() && 0 <= b < f.len() && a != b implies f[a] != f[b] by {
            assert(f[a] as int == cap - 1 - a);
            assert(f[b] as int == cap - 1 - b);
        }
        assert forall|i: int| 0 <= i < cap implies s.is_active_at(i) || f.contains(i as usize) by {
            assert(f[cap - 1 - i] as int == i);
        }
    }

    /// The grain pool's allocator: `MAX_GRAINS` voices, all free.
    pub fn new() -> (s: Self)
        ensures
            s.num_voices() == MAX_GRAINS,
            s.free_ids() == initial_free(MAX_GRAINS as nat),
            forall|i: int| !s.is_active_at(i),
            s.partitioned(),
    {
        Self::with_words(MAX_GRAINS / 64)
    }

    fn refill_free(&mut self)
        ensures
            final(self).active@ == old(self).active@,
            final(self).free@ == initial_free(final(self).num_voices()),
    {
        proof {
            use_type_invariant(&*self);
        }
        let cap = self.active.len() * 64;
        let mut free: Vec<usize> = Vec::new();
        let mut i = cap;
        while i > 0
            invariant
                i <= cap,
                free@.len() == cap - i,
                forall|k: int| 0 <= k < cap - i ==> #[trigger] free@[k] == (cap - 1 - k) as usize,
            decreases i,
        {
            i = i - 1;
            free.push(i);
        }
        proof {
            assert(free@ =~= initial_free(cap as nat));
        }
        self.free = free;
    }

    /// Frees every voice, as when a new source sample is loaded: the free stack is
    /// rebuilt as for a fresh pool and no voice stays active.
    pub fn reset(&mut self)
        ensures
            final(self).num_voices() == old(self).num_voices(),
            final(self).free_ids() == initial_free(final(self).num_voices()),
            forall|i: int| !final(self).is_active_at(i),
            final(self).partitioned(),
    {
        proof {
            use_type_invariant(&*self);
        }
        let n = self.active.len();
        let mut w: usize = 0;
        while w < n
            invariant
                w <= n,
                n == self.active@.len(),
                n == old(self).active@.len(),
                n * 64 <= usize::MAX,
                self.free@ == old(self).free@,
                forall|k: int| 0 <= k < self.free@.len() ==> (#[trigger] self.free@[k]) < n * 64,
                forall|k: int| 0 <= k < w ==> self.active@[k] == 0u64,
            decreases n - w,
        {
            self.active[w] = 0u64;
            w = w + 1;
        }
        self.refill_free();
        proof {
            assert forall|i: int| !self.is_active_at(i) by {
                if 0 <= i < self.num_voices() {
                    lemma_zero_word((i % 64) as u64);
                }
            }
            Self::lemma_fresh_partitioned(*self);
        }
    }

    /// Number of voices.
    pub fn capacity(&self) -> (c: usize)
        ensures
            c == self.num_voices(),
    {
        proof {
            use_type_invariant(self);
        }
        self.active.len() * 64
    }

    /// Number of ids on the free stack.
    pub fn free_len(&self) -> (n: usize)
        ensures
            n == self.free_ids().len(),
    {
        self.free.len()
    }

    /// Whether voice `i` is active.
    pub fn is_active(&self, i: usize) -> (b: bool)
        ensures
            b == self.is_active_at(i as int),
    {
        proof {
            use_type_invariant(self);
        }
        if i >= self.active.len() * 64 {
            return false;
        }
        proof {
            Self::lemma_word_index(i);
        }
        let word = self.active[i >> 6];
        let b = (i & 63) as u64;
        (word >> b) & 1u64 == 1u64
    }

    fn set_bit(&mut self, i: usize)
        requires
            i < old(self).num_voices(),
        ensures
            final(self).free@ == old(self).free@,
            final(self).num_voices() == old(self).num_voices(),
            forall|j: int|
                #[trigger] final(self).is_active_at(j) == (j == i || old(self).is_active_at(j)),
    {
        proof {
            use_type_invariant(&*self);
            Self::lemma_word_index(i);
        }
        let w = i >> 6;
        let b = (i & 63) as u64;
        let word = self.active[w];
        self.active[w] = word | (1u64 << b);
        proof {
            assert forall|j: int| #[trigger]
                self.is_active_at(j) == (j == i || old(self).is_active_at(j)) by {
                if 0 <= j < self.num_voices() {
                    lemma_set_bit(word, b, (j % 64) as u64);
                    if j / 64 == w as int {
                        assert((j % 64 == b) == (j == i));
                    }
                }
            }
            assert forall|k: int| 0 <= k < self.free@.len() implies (#[trigger] self.free@[k])
                < self.num_voices() by {
                assert(old(self).free@[k] < old(self).num_voices());
            }
        }
    }

    fn clear_bit(&mut self, i: usize)
        requires
            i < old(self).num_voices(),
        ensures
            final(self).free@ == old(self).free@,
            final(self).num_voices() == old(self).num_voices(),
            forall|j: int|
                #[trigger] final(self).is_active_at(j) == (j != i && old(self).is_active_at(j)),
    {
        proof {
            use_type_invariant(&*self);
            Self::lemma_word_index(i);
        }
        let w = i >> 6;
        let b = (i & 63) as u64;
        let word = self.active[w];
        self.active[w] = word & !(1u64 << b);
        proof {
            assert forall|j: int| #[trigger]
                self.is_active_at(j) == (j != i && old(self).is_active_at(j)) by {
                if 0 <= j < self.num_voices() {
                    lemma_clear_bit(word, b, (j % 64) as u64);
                    if j / 64 == w as int {
                        assert((j % 64 == b) == (j == i));
                    }
                }
            }
            assert forall|k: int| 0 <= k < self.free@.len() implies (#[trigger] self.free@[k])
                < self.num_voices() by {
                assert(old(self).free@[k] < old(self).num_voices());
            }
        }
    }

    /// Takes the id on top of the free stack and marks that voice active.
    /// Returns `None`, changing nothing, when the free stack is empty.
    pub fn acquire(&mut self) -> (r: Option<usize>)
        ensures
            final(self).num_voices() == old(self).num_voices(),
            old(self).free_ids().len() == 0 <==> r is None,
            r is None ==> final(self).free_ids() == old(self).free_ids() && forall|j: int|
                #[trigger] final(self).is_active_at(j) == old(self).is_active_at(j),
            r matches Some(i) ==> {
                &&& i == old(self).free_ids().last()
                &&& final(self).free_ids() == old(self).free_ids().drop_last()
                &&& forall|j: int|
                    #[trigger] final(self).is_active_at(j) == (j == i || old(self).is_active_at(
                        j,
                    ))
            },
            old(self).partitioned() ==> final(self).partitioned(),
            old(self).partitioned() && r is Some ==> !old(self).is_active_at(r->0 as int),
    {
        proof {
            use_type_invariant(&*self);
        }
        let mut free: Vec<usize> = Vec::new();
        std::mem::swap(&mut free, &mut self.free);
        let popped = free.pop();
        self.free = free;
        match popped {
            None => {
                proof {
                    assert(self.free_ids() == old(self).free_ids());
                    assert(self.active@ == old(self).active@);
                    assert forall|j: int| #[trigger]
                        self.is_active_at(j) == old(self).is_active_at(j) by {}
                }
                None
            },
            Some(id) => {
                let i = id;
                proof {
                    assert(old(self).free@[old(self).free@.len() - 1] < old(self).num_voices());
                    assert forall|k: int| 0 <= k < self.free@.len() implies (#[trigger] self.free@[k])
                        < self.num_voices() by {
                        assert(old(self).free@[k] < old(self).num_voices());
                    }
                }
                self.set_bit(i);
                proof {
                    assert(self.free_ids() =~= old(self).free_ids().drop_last());
                    if old(self).partitioned() {
                        Self::lemma_acquire_keeps_partition(*old(self), *self, id);
                    }
                }
                Some(i)
            },
        }
    }

    proof fn lemma_acquire_keeps_partition(pre: Self, post: Self, id: usize)
        requires
            pre.wf(),
            pre.partitioned(),
            pre.free_ids().len() > 0,
            id == pre.free_ids().last(),
            post.free_ids() == pre.free_ids().drop_last(),
            post.num_voices() == pre.num_voices(),
            forall|j: int|
                #[trigger] post.is_active_at(j) == (j == id as int || pre.is_active_at(j)),
        ensures
            post.partitioned(),
            !pre.is_active_at(id as int),
    {
        let f = pre.free_ids();
        let n = f.len();
        assert(!pre.is_active_at(f[n - 1] as int));
        assert forall|a: int, b: int|
            0 <= a < post.free_ids().len() && 0 <= b < post.free_ids().len() && a != b implies post.free_ids()[a]
            != post.free_ids()[b] by {
            assert(post.free_ids()[a] == f[a]);
            assert(post.free_ids()[b] == f[b]);
        }
        assert forall|k: int| 0 <= k < post.free_ids().len() implies !post.is_active_at(
            #[trigger] post.free_ids()[k] as int,
        ) by {
            assert(post.free_ids()[k] == f[k]);
            assert(f[k] != f[n - 1]);
            assert(!pre.is_active_at(f[k] as int));
        }
        assert forall|i: int| 0 <= i < post.num_voices() implies post.is_active_at(i)
            || post.free_ids().contains(i as usize) by {
            if !post.is_active_at(i) {
                assert(!pre.is_active_at(i));
                assert(f.contains(i as usize));
                let k = choose|k: int| 0 <= k < n && f[k] == i as usize;
                if k == n - 1 {
                    assert(i as usize == id);
                    assert(i == id as int);
                } else {
                    assert(post.free_ids()[k] == i as usize);
                }
            }
        }
    }

    /// Marks voice `i` inactive and pushes its id back on the free stack.
    pub fn release(&mut self, i: usize)
        requires
            i < old(self).num_voices(),
        ensures
            final(self).num_voices() == old(self).num_voices(),
            final(self).free_ids() == old(self).free_ids().push(i),
            forall|j: int|
                #[trigger] final(self).is_active_at(j) == (j != i && old(self).is_active_at(j)),
            old(self).partitioned() && old(self).is_active_at(i as int) ==> final(self).partitioned(),
    {
        proof {
            use_type_invariant(&*self);
        }
        self.clear_bit(i);
        let ghost mid = *self;
        let mut free: Vec<usize> = Vec::new();
        std::mem::swap(&mut free, &mut self.free);
        free.push(i);
        self.free = free;
        proof {
            assert(self.active@ == mid.active@);
            assert forall|j: int| #[trigger] self.is_active_at(j) == mid.is_active_at(j) by {}
            assert(self.free_ids() =~= old(self).free_ids().push(i));
            assert forall|k: int| 0 <= k < self.free@.len() implies (#[trigger] self.free@[k])
                < self.num_voices() by {
                if k < old(self).free@.len() {
                    assert(old(self).free@[k] < old(self).num_voices());
                }
            }
            if old(self).partitioned() && old(self).is_active_at(i as int) {
                Self::lemma_release_keeps_partition(*old(self), *self, i);
            }
        }
    }

    proof fn lemma_release_keeps_partition(pre: Self, post: Self, i: usize)
        requires
            pre.partitioned(),
            pre.is_active_at(i as int),
            i < pre.num_voices(),
            post.free_ids() == pre.free_ids().push(i),
            post.num_voices() == pre.num_voices(),
            forall|j: int|
                #[trigger] post.is_active_at(j) == (j != i && pre.is_active_at(j)),
        ensures
            post.partitioned(),
    {
        let f = pre.free_ids();
        let g = post.free_ids();
        let n = f.len();
        assert(i == i as usize);
        assert(!f.contains(i as usize)) by {
            if f.contains(i as usize) {
                let k = choose|k: int| 0 <= k < n && f[k] == i as usize;
                assert(!pre.is_active_at(f[k] as int));
            }
        }
        assert forall|a: int, b: int|
            0 <= a < g.len() && 0 <= b < g.len() && a != b implies g[a] != g[b] by {
            if a == n {
                assert(g[b] == f[b]);
                assert(f[b] != i as usize);
            } else if b == n {
                assert(g[a] == f[a]);
                assert(f[a] != i as usize);
            } else {
                assert(g[a] == f[a] && g[b] == f[b]);
            }
        }
        assert forall|k: int| 0 <= k < g.len() implies !post.is_active_at(#[trigger] g[k] as int) by {
            if k < n {
                assert(g[k] == f[k]);
                assert(!pre.is_active_at(f[k] as int));
            } else {
                assert(g[k] == i as usize);
            }
        }
        assert forall|j: int| 0 <= j < post.num_voices() implies post.is_active_at(j) || g.contains(
            j as usize,
        ) by {
            if j == i as int {
                assert(g[n as int] == i as usize);
            } else if !post.is_active_at(j) {
                assert(!pre.is_active_at(j));
                let k = choose|k: int| 0 <= k < n && f[k] == j as usize;
                assert(g[k] == f[k]);
            }
        }
    }

    /// Indices of the active voices in increasing order, read word by word: the
    /// lowest set bit is found with `trailing_zeros` and cleared with `m & (m - 1)`.
    pub fn active_indices(&self) -> (res: Vec<usize>)
        ensures
            forall|a: int, b: int| 0 <= a < b < res@.len() ==> res@[a] < res@[b],
            forall|a: int| 0 <= a < res@.len() ==> self.is_active_at(#[trigger] res@[a] as int),
            forall|i: int| #[trigger] self.is_active_at(i) ==> res@.contains(i as usize),
    {
        proof {
            use_type_invariant(self);
        }
        let mut res: Vec<usize> = Vec::new();
        let n = self.active.len();
        let mut w: usize = 0;
        while w < n
            invariant
                w <= n,
                n == self.active@.len(),
                n * 64 <= usize::MAX,
                forall|a: int, b: int| 0 <= a < b < res@.len() ==> res@[a] < res@[b],
                forall|a: int| 0 <= a < res@.len() ==> res@[a] < w * 64,
                forall|a: int|
                    0 <= a < res@.len() ==> self.is_active_at(#[trigger] res@[a] as int),
                forall|i: int|
                    0 <= i < w * 64 && #[trigger] self.is_active_at(i) ==> res@.contains(
                        i as usize,
                    ),
            decreases n - w,
        {
            let word = self.active[w];
            let mut mask = word;
            let ghost mut lo: int = 0;
            while mask != 0
                invariant
                    w < n,
                    n == self.active@.len(),
                    n * 64 <= usize::MAX,
                    word == self.active@[w as int],
                    0 <= lo <= 64,
                    forall|j: u64| j < 64 ==> bit_of(mask, j) == (j >= lo && bit_of(word, j)),
                    forall|a: int, b: int| 0 <= a < b < res@.len() ==> res@[a] < res@[b],
                    forall|a: int| 0 <= a < res@.len() ==> res@[a] < w * 64 + lo,
                    forall|a: int|
                        0 <= a < res@.len() ==> self.is_active_at(#[trigger] res@[a] as int),
                    forall|i: int|
                        0 <= i < w * 64 + lo && #[trigger] self.is_active_at(i) ==> res@.contains(
                            i as usize,
                        ),
                decreases mask,
            {
                let tz = mask.trailing_zeros();
                proof {
                    vstd::std_specs::bits::axiom_u64_trailing_zeros(mask);
                }
                let bit = tz as u64;
                proof {
                    assert(bit_of(mask, bit));
                    assert(bit >= lo);
                    assert forall|k: u64| k < bit implies !bit_of(mask, k) by {}
                }
                let i = w * 64 + (bit as usize);
                let old_mask = mask;
                mask = mask & (mask - 1);
                proof {
                    assert forall|j: u64| j < 64 implies bit_of(mask, j) == (j >= bit + 1
                        && bit_of(word, j)) by {
                        lemma_clear_lowest(old_mask, bit, j);
                    }
                    lemma_and_not_greater(old_mask);
                    assert(self.is_active_at(i as int)) by {
                        assert((i as int) / 64 == w as int);
                        assert((i as int) % 64 == bit as int);
                    }
                    assert forall|k: int|
                        0 <= k < w * 64 + bit + 1 && #[trigger] self.is_active_at(k) implies (
                        res@.push(i)).contains(k as usize) by {
                        if k < w * 64 + lo {
                            let a = choose|a: int| 0 <= a < res@.len() && res@[a] == k as usize;
                            assert(res@.push(i)[a] == k as usize);
                        } else if k == i as int {
                            assert(res@.push(i)[res@.len() as int] == i);
                        } else {
                            assert(k / 64 == w as int);
                            let j = (k % 64) as u64;
                            assert(lo <= j < bit);
                            assert(!bit_of(old_mask, j));
                        }
                    }
                }
                res.push(i);
                proof {
                    lo = bit + 1;
                }
            }
            proof {
                assert forall|i: int|
                    0 <= i < (w + 1) * 64 && #[trigger] self.is_active_at(i) implies res@.contains(
                    i as usize,
                ) by {
                    if i >= w * 64 + lo {
                        assert(i / 64 == w as int);
                        let j = (i % 64) as u64;
                        assert(bit_of(mask, j) == (j >= lo && bit_of(word, j)));
                        lemma_zero_word(j);
                    }
                }
            }
            w = w + 1;
        }
        res
    }
}

/// Releasing the voice that `acquire` just handed out undoes the acquire: the free
/// stack and the set of active voices are as before. `s1` is `s0` after an `acquire`
/// that returned `i`, `s2` is `s1` after `release(i)`; `s0` satisfies `partitioned`
/// (without it, the voice handed out might already have been active).
pub proof fn lemma_release_undoes_acquire(s0: GrainSlots, s1: GrainSlots, s2: GrainSlots, i: usize)
    requires
        s0.partitioned(),
        s0.free_ids().len() > 0,
        i == s0.free_ids().last(),
        s1.free_ids() == s0.free_ids().drop_last(),
        forall|j: int| #[trigger] s1.is_active_at(j) == (j == i || s0.is_active_at(j)),
        s2.free_ids() == s1.free_ids().push(i),
        forall|j: int| #[trigger] s2.is_active_at(j) == (j != i && s1.is_active_at(j)),
    ensures
        s2.free_ids() == s0.free_ids(),
        forall|j: int| #[trigger] s2.is_active_at(j) == s0.is_active_at(j),
{
    let f = s0.free_ids();
    assert(!s0.is_active_at(f[f.len() - 1] as int));
    assert(i == f.last());
    assert(s2.free_ids() =~= f);
    assert forall|j: int| #[trigger] s2.is_active_at(j) == s0.is_active_at(j) by {
        assert(s1.is_active_at(j) == (j == i || s0.is_active_at(j)));
    }
}

} // verus!
