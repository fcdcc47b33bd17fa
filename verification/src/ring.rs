//! Circular buffers and the index arithmetic of the engine's delay lines.
//!
//! `RingBuffer` is the write side shared by every delay line (stereo delay, band
//! delays, reverb lines, pre-delay, resampler FIFO, live grain buffer, convolution
//! history). The mask functions give the power-of-two index arithmetic that the
//! delay lines and the resampler use, each proved equal to arithmetic modulo the
//! buffer length.

use vstd::prelude::*;
use vstd::arithmetic::power2::{lemma_pow2_pos, pow2};
use vstd::bits::{
    low_bits_mask, lemma_usize_low_bits_mask_is_mod, lemma_usize_pow2_no_overflow,
    lemma_usize_shl_is_mul,
};

verus! {

/// `mask` is one less than a power of two that fits a `usize`: its set bits are all low bits.
pub open spec fn is_low_mask(mask: usize) -> bool {
    exists|n: nat| n < usize::BITS && mask == #[trigger] low_bits_mask(n)
}

/// For a low mask, `x & mask` is `x` modulo `mask + 1`, and `mask + 1` fits a `usize`.
pub proof fn lemma_mask_is_mod(x: usize, mask: usize)
    requires
        is_low_mask(mask),
    ensures
        mask < usize::MAX,
        mask as int * 2 + 1 <= usize::MAX,
        x & mask == x as int % (mask as int + 1),
{
    let n = choose|n: nat| n < usize::BITS && mask == #[trigger] low_bits_mask(n);
    lemma_usize_pow2_no_overflow(n);
    lemma_pow2_pos(n);
    lemma_pow2_divides_word(n);
    lemma_usize_low_bits_mask_is_mod(x, n);
}

/// Mask of a buffer of `1 << pow2` slots.
pub fn mask_for_pow2(pow2: usize) -> (mask: usize)
    requires
        pow2 < usize::BITS,
    ensures
        is_low_mask(mask),
        mask == low_bits_mask(pow2 as nat),
{
    proof {
        lemma_usize_pow2_no_overflow(pow2 as nat);
        lemma_usize_shl_is_mul(1, pow2);
        lemma_pow2_pos(pow2 as nat);
    }
    let len: usize = 1usize << pow2;
    let mask = len - 1;
    proof {
        assert(mask == low_bits_mask(pow2 as nat));
        assert(pow2 < usize::BITS && mask == low_bits_mask(pow2 as nat));
    }
    mask
}

/// `(i + 1) & mask`: the slot after `i` in a power-of-two buffer.
pub fn mask_next(i: usize, mask: usize) -> (r: usize)
    requires
        is_low_mask(mask),
        i < usize::MAX,
    ensures
        r == (i as int + 1) % (mask as int + 1),
{
    proof {
        lemma_mask_is_mod((i + 1) as usize, mask);
    }
    (i + 1) & mask
}

/// Neighbouring read slots `(k & mask, (k & mask) + 1 & mask)` for linear
/// interpolation at integer position `k`.
pub fn mask_pair(k: usize, mask: usize) -> (r: (usize, usize))
    requires
        is_low_mask(mask),
    ensures
        r.0 == k as int % (mask as int + 1),
        r.1 == (k as int + 1) % (mask as int + 1),
{
    proof {
        lemma_mask_is_mod(k, mask);
    }
    let i0 = k & mask;
    let i1 = mask_next(i0, mask);
    proof {
        lemma_mod_shift(k as int, 1, mask as int + 1);
    }
    (i0, i1)
}

/// The four slots around integer position `k` used by the resampler's cubic
/// Hermite interpolation: `k - 1`, `k`, `k + 1`, `k + 2`, each wrapped with `mask`.
pub fn hermite_taps(k: usize, mask: usize) -> (r: (usize, usize, usize, usize))
    requires
        is_low_mask(mask),
    ensures
        r.0 == (k as int - 1) % (mask as int + 1),
        r.1 == k as int % (mask as int + 1),
        r.2 == (k as int + 1) % (mask as int + 1),
        r.3 == (k as int + 2) % (mask as int + 1),
{
    proof {
        lemma_mask_is_mod(k, mask);
    }
    let len = Ghost(mask as int + 1);
    let i1 = k & mask;
    let i0 = i1.wrapping_sub(1) & mask;
    let i2 = (i1 + 1) & mask;
    let i3 = (i1 + 2) & mask;
    proof {
        lemma_mask_is_mod((i1 + 1) as usize, mask);
        lemma_mask_is_mod((i1 + 2) as usize, mask);
        lemma_mask_is_mod(i1.wrapping_sub(1), mask);
        lemma_mod_shift(k as int, 1, len@);
        lemma_mod_shift(k as int, 2, len@);
        lemma_mod_shift(k as int, -1, len@);
        if i1 == 0 {
            assert(i1.wrapping_sub(1) == usize::MAX);
            lemma_word_max_mod(mask);
        }
    }
    (i0, i1, i2, i3)
}

/// Re-centres a resampler read position that has come within `gap` slots behind
/// the write position `w`: when `(w - r) & mask < gap` the read position moves to
/// `(w + gap) & mask`, else it stays (`None`).
pub fn resync_read(w: usize, r: usize, mask: usize, gap: usize) -> (res: Option<usize>)
    requires
        is_low_mask(mask),
        w + gap <= usize::MAX,
    ensures
        res is Some <==> (w as int - r as int) % (mask as int + 1) < gap,
        res matches Some(p) ==> p == (w as int + gap as int) % (mask as int + 1),
{
    proof {
        lemma_mask_is_mod(w.wrapping_sub(r), mask);
        lemma_mask_is_mod((w + gap) as usize, mask);
        lemma_wrapping_sub_mod(w, r, mask);
    }
    let r_to_w = w.wrapping_sub(r) & mask;
    if r_to_w < gap {
        Some((w + gap) & mask)
    } else {
        None
    }
}

proof fn lemma_mod_shift(k: int, c: int, len: int)
    requires
        len > 0,
    ensures
        (k % len + c) % len == (k + c) % len,
{
    vstd::arithmetic::div_mod::lemma_add_mod_noop_right(c, k, len);
}

/// `usize::MAX` modulo a power of two that fits a `usize` is that power minus one.
proof fn lemma_word_max_mod(mask: usize)
    requires
        is_low_mask(mask),
    ensures
        usize::MAX as int % (mask as int + 1) == mask as int,
        (0 - 1) % (mask as int + 1) == mask as int,
{
    let n = choose|n: nat| n < usize::BITS && mask == #[trigger] low_bits_mask(n);
    lemma_usize_pow2_no_overflow(n);
    lemma_pow2_pos(n);
    let len = mask as int + 1;
    lemma_pow2_divides_word(n);
    let m = usize::MAX as int + 1;
    vstd::arithmetic::div_mod::lemma_fundamental_div_mod(m, len);
    vstd::arithmetic::div_mod::lemma_mod_multiples_vanish(m / len, -1, len);
    vstd::arithmetic::mul::lemma_mul_is_commutative(len, m / len);
    vstd::arithmetic::div_mod::lemma_small_mod(mask as nat, len as nat);
    vstd::arithmetic::div_mod::lemma_mod_multiples_vanish(1, -1, len);
}

/// Modulo a power of two that fits a `usize`, wrapping subtraction is exact subtraction.
proof fn lemma_wrapping_sub_mod(w: usize, r: usize, mask: usize)
    requires
        is_low_mask(mask),
    ensures
        w.wrapping_sub(r) as int % (mask as int + 1) == (w as int - r as int) % (mask as int + 1),
{
    let n = choose|n: nat| n < usize::BITS && mask == #[trigger] low_bits_mask(n);
    lemma_usize_pow2_no_overflow(n);
    lemma_pow2_pos(n);
    let len = mask as int + 1;
    assert(len == pow2(n));
    if w >= r {
        assert(w.wrapping_sub(r) == w - r);
    } else {
        let m = usize::MAX as int + 1;
        assert(w.wrapping_sub(r) as int == w as int - r as int + m);
        lemma_pow2_divides_word(n);
        vstd::arithmetic::div_mod::lemma_fundamental_div_mod(m, len);
        let q = m / len;
        assert(m == len * q);
        vstd::arithmetic::div_mod::lemma_mod_multiples_vanish(q, w as int - r as int, len);
    }
}

/// A power of two below the word size divides `usize::MAX + 1`.
proof fn lemma_pow2_divides_word(n: nat)
    requires
        n < usize::BITS,
    ensures
        (usize::MAX as int + 1) % pow2(n) as int == 0,
        pow2(n) * 2 <= usize::MAX as int + 1,
{
    let b = usize::BITS as nat;
    lemma_pow2_pos(n);
    vstd::arithmetic::power2::lemma_pow2_adds(n, (b - n) as nat);
    assert(usize::MAX as int + 1 == pow2(b)) by {
        vstd::arithmetic::power2::lemma2_to64();
        assert(usize::BITS == 32 || usize::BITS == 64);
    }
    vstd::arithmetic::div_mod::lemma_mod_multiples_basic(pow2((b - n) as nat) as int, pow2(n) as int);
    vstd::arithmetic::mul::lemma_mul_is_commutative(pow2(n) as int, pow2((b - n) as nat) as int);
    vstd::arithmetic::power2::lemma_pow2_unfold((b - n) as nat);
    lemma_pow2_pos((b - n - 1) as nat);
    vstd::arithmetic::mul::lemma_mul_inequality(2, pow2((b - n) as nat) as int, pow2(n) as int);
    vstd::arithmetic::mul::lemma_mul_is_commutative(2, pow2(n) as int);
}

/// After a re-centre on a buffer of at least `2 * gap` slots, the read position is at
/// least `gap` slots behind the write position, so the next check leaves it alone.
pub proof fn lemma_resync_restores_gap(w: usize, gap: usize, mask: usize)
    requires
        is_low_mask(mask),
        0 < gap,
        2 * gap <= mask as int + 1,
    ensures
        (w as int - (w as int + gap as int) % (mask as int + 1)) % (mask as int + 1) >= gap,
{
    let len = mask as int + 1;
    let p = (w as int + gap as int) % len;
    vstd::arithmetic::div_mod::lemma_sub_mod_noop(w as int, w as int + gap as int, len);
    vstd::arithmetic::div_mod::lemma_mod_twice(w as int + gap as int, len);
    vstd::arithmetic::div_mod::lemma_sub_mod_noop(w as int, p, len);
    vstd::arithmetic::div_mod::lemma_mod_twice(w as int, len);
    assert((w as int - p) % len == ((w as int) - (w as int + gap as int)) % len) by {
        vstd::arithmetic::div_mod::lemma_mod_sub_multiples_vanish(0, len);
        vstd::arithmetic::div_mod::lemma_add_mod_noop(w as int, -p, len);
        vstd::arithmetic::div_mod::lemma_add_mod_noop(w as int, -(w as int + gap as int), len);
        vstd::arithmetic::div_mod::lemma_mod_twice(-p, len);
        lemma_neg_mod(p, w as int + gap as int, len);
    }
    assert(((w as int) - (w as int + gap as int)) == -(gap as int));
    assert((-(gap as int)) % len == len - gap) by {
        vstd::arithmetic::div_mod::lemma_mod_multiples_vanish(1, -(gap as int), len);
        vstd::arithmetic::div_mod::lemma_small_mod((len - gap) as nat, len as nat);
    }
}

proof fn lemma_neg_mod(p: int, q: int, len: int)
    requires
        len > 0,
        p == q % len,
    ensures
        (-p) % len == (-q) % len,
{
    vstd::arithmetic::div_mod::lemma_fundamental_div_mod(q, len);
    let d = q / len;
    vstd::arithmetic::mul::lemma_mul_unary_negation(len, d);
    assert(-q == -p + len * (-d));
    vstd::arithmetic::div_mod::lemma_mod_multiples_vanish(-d, -p, len);
    vstd::arithmetic::mul::lemma_mul_is_commutative(len, -d);
}

/// Smallest power of two that is at least `n` (and at least 1): the length of a
/// delay buffer that must hold `n` samples and wrap with a mask.
pub fn pow2_at_least(n: usize) -> (len: usize)
    requires
        n <= usize::MAX / 2 + 1,
    ensures
        len >= n,
        len >= 1,
        len == 1 || len / 2 < n,
        is_low_mask((len - 1) as usize),
{
    let mut len: usize = 1;
    let ghost mut e: nat = 0;
    proof {
        lemma_pow2_pos(0);
        vstd::arithmetic::power2::lemma2_to64();
        assert(low_bits_mask(0) == 0);
    }
    while len < n
        invariant
            n <= usize::MAX / 2 + 1,
            len >= 1,
            len == pow2(e),
            e < usize::BITS,
            len == 1 || len / 2 < n,
        decreases usize::BITS - e,
    {
        proof {
            vstd::arithmetic::power2::lemma_pow2_unfold(e + 1);
            if e + 1 >= usize::BITS {
                lemma_pow2_word();
                assert(len * 2 == usize::MAX as int + 1);
                assert(false);
            }
        }
        len = len * 2;
        proof {
            e = e + 1;
        }
    }
    proof {
        lemma_pow2_pos(e);
        assert((len - 1) as usize == low_bits_mask(e));
        assert(e < usize::BITS && (len - 1) as usize == low_bits_mask(e));
    }
    len
}

/// `2^BITS` is one more than `usize::MAX`.
proof fn lemma_pow2_word()
    ensures
        pow2(usize::BITS as nat) == usize::MAX as int + 1,
{
    vstd::arithmetic::power2::lemma2_to64();
    assert(usize::BITS == 32 || usize::BITS == 64);
}

/// `(start + i) % len`: slot `i` positions after `start` in a buffer of `len` slots.
pub fn wrap_offset(start: usize, i: usize, len: usize) -> (r: usize)
    requires
        len > 0,
        start + i <= usize::MAX,
    ensures
        r == (start + i) % (len as int),
        r < len,
{
    (start + i) % len
}

/// Neighbouring read slots `(k % len, (k % len + 1) % len)` for linear interpolation
/// at integer position `k` in a buffer of any length.
pub fn wrap_pair(k: usize, len: usize) -> (r: (usize, usize))
    requires
        len > 0,
    ensures
        r.0 == k as int % (len as int),
        r.1 == (k as int + 1) % (len as int),
        r.0 < len,
        r.1 < len,
{
    let i0 = k % len;
    let i1 = (i0 + 1) % len;
    proof {
        lemma_mod_shift(k as int, 1, len as int);
    }
    (i0, i1)
}

/// The slot written `d` pushes before the most recent one, when the next write goes
/// to slot `w` of a buffer of `len` slots.
pub open spec fn lag_slot(w: int, len: int, d: int) -> int {
    (w - 1 - d) % len
}

/// One write into a circular buffer: store `x` at the write position and advance it.
pub open spec fn ring_push<T>(c: Seq<T>, w: int, x: T) -> (Seq<T>, int) {
    (c.update(w, x), (w + 1) % (c.len() as int))
}

/// Writes every element of `xs` in order into a circular buffer.
pub open spec fn ring_push_all<T>(c: Seq<T>, w: int, xs: Seq<T>) -> (Seq<T>, int)
    decreases xs.len(),
{
    if xs.len() == 0 {
        (c, w)
    } else {
        let (c1, w1) = ring_push_all(c, w, xs.drop_last());
        ring_push(c1, w1, xs.last())
    }
}

/// A circular buffer's write side: its slots and the slot the next write goes to.
pub struct RingBuffer<T> {
    buf: Vec<T>,
    w: usize,
}

impl<T> RingBuffer<T> {
    /// The representation invariant behind `wf`, kept by every operation.
    #[verifier::type_invariant]
    spec fn inv(&self) -> bool {
        &&& self.buf@.len() > 0
        &&& self.w < self.buf@.len()
    }
}

impl<T: Copy> RingBuffer<T> {
    /// The slots.
    pub closed spec fn contents(&self) -> Seq<T> {
        self.buf@
    }

    /// The slot the next write goes to.
    pub closed spec fn write_pos(&self) -> int {
        self.w as int
    }

    /// At least one slot, and the write position names a slot.
    pub open spec fn wf(&self) -> bool {
        &&& self.contents().len() > 0
        &&& 0 <= self.write_pos() < self.contents().len()
    }

    /// Slot written `d` writes before the latest one.
    pub open spec fn lag(&self, d: int) -> int {
        lag_slot(self.write_pos(), self.contents().len() as int, d)
    }

    /// A buffer of `len` slots holding `fill`, writing first to slot 0.
    pub fn new(len: usize, fill: T) -> (r: Self)
        requires
            len > 0,
        ensures
            r.wf(),
            r.contents() == Seq::new(len as nat, |_i: int| fill),
            r.write_pos() == 0,
    {
        let mut buf: Vec<T> = Vec::new();
        let mut i: usize = 0;
        while i < len
            invariant
                i <= len,
                buf@ == Seq::new(i as nat, |_i: int| fill),
            decreases len - i,
        {
            buf.push(fill);
            i = i + 1;
            proof {
                assert(buf@ =~= Seq::new(i as nat, |_i: int| fill));
            }
        }
        RingBuffer { buf, w: 0 }
    }

    /// Number of slots.
    pub fn len(&self) -> (n: usize)
        ensures
            n == self.contents().len(),
    {
        self.buf.len()
    }

    /// The slot the next write goes to.
    pub fn write_index(&self) -> (i: usize)
        ensures
            i == self.write_pos(),
    {
        self.w
    }

    /// Writes `x` at the write position and advances it by one slot, wrapping at the end.
    pub fn push(&mut self, x: T)
        ensures
            final(self).wf(),
            (final(self).contents(), final(self).write_pos()) == ring_push(
                old(self).contents(),
                old(self).write_pos(),
                x,
            ),
            final(self).contents().len() == old(self).contents().len(),
            final(self).contents()[old(self).write_pos()] == x,
            forall|j: int|
                0 <= j < old(self).contents().len() && j != old(self).write_pos()
                    ==> final(self).contents()[j] == old(self).contents()[j],
            final(self).write_pos() == (old(self).write_pos() + 1) % (old(self).contents().len() as int),
    {
        proof {
            use_type_invariant(&*self);
        }
        let w = self.w;
        self.buf[w] = x;
        let n = self.buf.len();
        self.w = if w + 1 < n { w + 1 } else { 0 };
        proof {
            if w + 1 < n {
                vstd::arithmetic::div_mod::lemma_small_mod((w + 1) as nat, n as nat);
            } else {
                vstd::arithmetic::div_mod::lemma_mod_self_0(n as int);
            }
        }
    }

    /// Reads slot `i`.
    pub fn get(&self, i: usize) -> (x: T)
        requires
            i < self.contents().len(),
        ensures
            x == self.contents()[i as int],
    {
        self.buf[i]
    }

    /// Overwrites slot `i`, leaving the write position alone.
    pub fn set(&mut self, i: usize, x: T)
        requires
            i < old(self).contents().len(),
        ensures
            final(self).contents() == old(self).contents().update(i as int, x),
            final(self).write_pos() == old(self).write_pos(),
            final(self).wf(),
    {
        proof {
            use_type_invariant(&*self);
        }
        self.buf[i] = x;
    }

    /// The slot written `d` writes before the most recent one.
    pub fn lag_index(&self, d: usize) -> (i: usize)
        requires
            d < self.contents().len(),
        ensures
            i == self.lag(d as int),
            i == (self.write_pos() - 1 - d) % (self.contents().len() as int),
            i < self.contents().len(),
    {
        proof {
            use_type_invariant(self);
        }
        let n = self.buf.len();
        let back = d + 1;
        let r = if back <= self.w { self.w - back } else { self.w + (n - back) };
        proof {
            let len = n as int;
            if back <= self.w {
                vstd::arithmetic::div_mod::lemma_small_mod(r as nat, n as nat);
            } else {
                vstd::arithmetic::div_mod::lemma_small_mod(r as nat, n as nat);
                vstd::arithmetic::div_mod::lemma_mod_multiples_vanish(1, self.w - 1 - d, len);
            }
        }
        r
    }

    /// The slot after the write position: the oldest value still held once the
    /// write position has been overwritten.
    pub fn slot_after_write(&self) -> (i: usize)
        ensures
            i == (self.write_pos() + 1) % (self.contents().len() as int),
    {
        proof {
            use_type_invariant(self);
        }
        let n = self.buf.len();
        (self.w + 1) % n
    }

    /// The slot where the first of the last `frames` writes went:
    /// `(write position - frames)` modulo the length, rounded toward the buffer.
    pub fn block_start(&self, frames: usize) -> (i: usize)
        ensures
            i == (self.write_pos() - frames as int) % (self.contents().len() as int),
            i < self.contents().len(),
    {
        proof {
            use_type_invariant(self);
        }
        let n = self.buf.len();
        let f = frames % n;
        let r = if f <= self.w { self.w - f } else { self.w + (n - f) };
        proof {
            let len = n as int;
            vstd::arithmetic::div_mod::lemma_small_mod(r as nat, n as nat);
            vstd::arithmetic::div_mod::lemma_fundamental_div_mod(frames as int, len);
            let q = frames as int / len;
            vstd::arithmetic::mul::lemma_mul_unary_negation(len, q);
            if f <= self.w {
                vstd::arithmetic::div_mod::lemma_mod_multiples_vanish(-q, r as int, len);
                assert(self.w - frames == len * (-q) + r);
            } else {
                vstd::arithmetic::div_mod::lemma_mod_multiples_vanish(-q - 1, r as int, len);
                vstd::arithmetic::mul::lemma_mul_is_distributive_sub(len, -q, 1);
                assert(self.w - frames == len * (-q - 1) + r);
            }
        }
        r
    }
}

/// What a delay line reads back is what was written into it: after writing `xs`
/// into a buffer of `len` slots, the slot `d` writes back from the latest holds
/// `xs[|xs| - 1 - d]` for every `d` below both `|xs|` and `len`; the buffer keeps
/// its length and the write position has moved `|xs|` slots.
pub proof fn lemma_ring_reads_back_writes<T>(c: Seq<T>, w: int, xs: Seq<T>)
    requires
        c.len() > 0,
        0 <= w < c.len(),
    ensures
        ring_push_all(c, w, xs).0.len() == c.len(),
        ring_push_all(c, w, xs).1 == (w + xs.len()) % (c.len() as int),
        forall|d: int|
            0 <= d < xs.len() && d < c.len() ==> #[trigger] ring_push_all(c, w, xs).0[lag_slot(
                ring_push_all(c, w, xs).1,
                c.len() as int,
                d,
            )] == xs[xs.len() - 1 - d],
    decreases xs.len(),
{
    let len = c.len() as int;
    if xs.len() == 0 {
        vstd::arithmetic::div_mod::lemma_small_mod(w as nat, len as nat);
    } else {
        let ys = xs.drop_last();
        lemma_ring_reads_back_writes(c, w, ys);
        let (c1, w1) = ring_push_all(c, w, ys);
        let (c2, w2) = ring_push_all(c, w, xs);
        assert((c2, w2) == ring_push(c1, w1, xs.last()));
        vstd::arithmetic::div_mod::lemma_mod_bound(w + ys.len(), len);
        assert(0 <= w1 < len);
        lemma_mod_shift(w + ys.len(), 1, len);
        assert(w2 == (w + xs.len()) % len);
        assert forall|d: int| 0 <= d < xs.len() && d < len implies #[trigger] c2[lag_slot(
            w2,
            len,
            d,
        )] == xs[xs.len() - 1 - d] by {
            // the latest write sits one slot behind the new write position
            vstd::arithmetic::div_mod::lemma_mod_twice(w1 + 1, len);
            assert(lag_slot(w2, len, d) == (w1 - d) % len) by {
                lemma_mod_shift(w1 + 1, -1 - d, len);
            }
            if d == 0 {
                vstd::arithmetic::div_mod::lemma_small_mod(w1 as nat, len as nat);
            } else {
                assert(lag_slot(w1, len, d - 1) == (w1 - d) % len);
                vstd::arithmetic::div_mod::lemma_mod_bound(w1 - d, len);
                if (w1 - d) % len == w1 {
                    // the slot `d` writes back would be the one just overwritten, which needs
                    // at least `len` writes in between
                    vstd::arithmetic::div_mod::lemma_small_mod(w1 as nat, len as nat);
                    vstd::arithmetic::div_mod::lemma_mod_sub_multiples_vanish(w1, len);
                    lemma_mod_shift(w1, -d, len);
                    assert(false) by {
                        lemma_no_small_period(d, len);
                        lemma_mod_shift_eq(w1, d, len);
                    }
                }
                assert(c2[(w1 - d) % len] == c1[(w1 - d) % len]);
                assert(ys[ys.len() - 1 - (d - 1)] == xs[xs.len() - 1 - d]);
            }
        }
    }
}

/// `0 < d < len` is never a multiple of `len`.
proof fn lemma_no_small_period(d: int, len: int)
    requires
        0 < d < len,
    ensures
        d % len != 0,
{
    vstd::arithmetic::div_mod::lemma_small_mod(d as nat, len as nat);
}

/// If `(a - d) % len == a % len` then `d` is a multiple of `len`.
proof fn lemma_mod_shift_eq(a: int, d: int, len: int)
    requires
        len > 0,
        (a - d) % len == a % len,
    ensures
        d % len == 0,
{
    vstd::arithmetic::div_mod::lemma_sub_mod_noop(a, a - d, len);
    vstd::arithmetic::div_mod::lemma_mod_self_0(len);
    assert((a % len - (a - d) % len) == 0);
    vstd::arithmetic::div_mod::lemma_small_mod(0, len as nat);
}

/// One write stores `x` in the slot the write position names, leaves every other
/// slot alone, keeps the length and moves the write position one slot on, wrapping.
pub proof fn lemma_ring_push_writes_at_write_pos<T>(c: Seq<T>, w: int, x: T)
    requires
        0 <= w < c.len(),
    ensures
        ring_push(c, w, x).0.len() == c.len(),
        ring_push(c, w, x).0[w] == x,
        forall|j: int| 0 <= j < c.len() && j != w ==> #[trigger] ring_push(c, w, x).0[j] == c[j],
        ring_push(c, w, x).1 == (w + 1) % (c.len() as int),
{
}

/// The block just written reads back in order: after writing `xs` (no more than the
/// buffer holds) from write position `w`, slot `(w' - |xs| + i) % len`, counted from
/// the new write position `w'`, holds `xs[i]`; and that block start is `w` itself.
pub proof fn lemma_block_reads_back_in_order<T>(c: Seq<T>, w: int, xs: Seq<T>)
    requires
        c.len() > 0,
        0 <= w < c.len(),
        xs.len() <= c.len(),
    ensures
        (ring_push_all(c, w, xs).1 - xs.len()) % (c.len() as int) == w,
        forall|i: int|
            0 <= i < xs.len() ==> #[trigger] ring_push_all(c, w, xs).0[(ring_push_all(c, w, xs).1
                - xs.len() + i) % (c.len() as int)] == xs[i],
{
    let len = c.len() as int;
    let n = xs.len() as int;
    lemma_ring_reads_back_writes(c, w, xs);
    let w2 = ring_push_all(c, w, xs).1;
    lemma_block_start_inverts_advance(w, n, len);
    assert forall|i: int| 0 <= i < n implies #[trigger] ring_push_all(c, w, xs).0[(w2 - n + i) % len]
        == xs[i] by {
        let d = n - 1 - i;
        assert(lag_slot(w2, len, d) == (w2 - n + i) % len);
        assert(ring_push_all(c, w, xs).0[lag_slot(w2, len, d)] == xs[n - 1 - d]);
    }
}

/// The block-start slot inverts the advance of `frames` writes: starting from slot
/// `p`, after `frames` writes the write position is `(p + frames) % len`, and the
/// block start computed from there is `p` again.
pub proof fn lemma_block_start_inverts_advance(p: int, frames: int, len: int)
    requires
        len > 0,
        0 <= p < len,
        frames >= 0,
    ensures
        ((p + frames) % len - frames) % len == p,
{
    lemma_mod_shift(p + frames, -frames, len);
    vstd::arithmetic::div_mod::lemma_small_mod(p as nat, len as nat);
}

} // verus!
