//! Single-bit facts about 64-bit words used by the slot bitmap.

use vstd::prelude::*;

verus! {

/// Bit `j` of `word` is set.
pub open spec fn bit_of(word: u64, j: u64) -> bool {
    (word >> j) & 1u64 == 1u64
}

/// Setting bit `b` sets exactly that bit and keeps the others.
pub proof fn lemma_set_bit(w: u64, b: u64, j: u64)
    requires
        b < 64,
        j < 64,
    ensures
        bit_of(w | (1u64 << b), j) == (j == b || bit_of(w, j)),
{
    assert((((w | (1u64 << b)) >> j) & 1u64 == 1u64) == (j == b || (w >> j) & 1u64 == 1u64))
        by (bit_vector)
        requires
            b < 64,
            j < 64,
    ;
}

/// Clearing bit `b` clears exactly that bit and keeps the others.
pub proof fn lemma_clear_bit(w: u64, b: u64, j: u64)
    requires
        b < 64,
        j < 64,
    ensures
        bit_of(w & !(1u64 << b), j) == (j != b && bit_of(w, j)),
{
    assert((((w & !(1u64 << b)) >> j) & 1u64 == 1u64) == (j != b && (w >> j) & 1u64 == 1u64))
        by (bit_vector)
        requires
            b < 64,
            j < 64,
    ;
}

/// The all-zero word has no bit set.
pub proof fn lemma_zero_word(j: u64)
    requires
        j < 64,
    ensures
        !bit_of(0u64, j),
{
    assert(((0u64 >> j) & 1u64 == 1u64) == false) by (bit_vector)
        requires
            j < 64,
    ;
}

/// Bits below `t` all clear means the low `t`-bit field is zero.
proof fn lemma_low_field_zero(m: u64, t: u64)
    requires
        t < 64,
        forall|j: u64| j < t ==> !bit_of(m, j),
    ensures
        m & (((1u64 << t) - 1u64) as u64) == 0,
    decreases t,
{
    if t == 0 {
        assert(m & (((1u64 << 0u64) - 1u64) as u64) == 0) by (bit_vector);
    } else {
        let s = (t - 1) as u64;
        lemma_low_field_zero(m, s);
        assert(!bit_of(m, s));
        assert(m & (((1u64 << t) - 1u64) as u64) == 0) by (bit_vector)
            requires
                s < 63,
                t == s + 1,
                m & (((1u64 << s) - 1u64) as u64) == 0,
                (m >> s) & 1u64 != 1u64,
        ;
    }
}

/// `m & (m - 1)` clears the lowest set bit `tz` of `m` and keeps every other bit.
pub proof fn lemma_clear_lowest(m: u64, tz: u64, j: u64)
    requires
        tz < 64,
        j < 64,
        bit_of(m, tz),
        forall|k: u64| k < tz ==> !bit_of(m, k),
    ensures
        m != 0,
        bit_of(m & ((m - 1) as u64), j) == (j != tz && bit_of(m, j)),
{
    lemma_low_field_zero(m, tz);
    assert(m != 0) by (bit_vector)
        requires
            (m >> tz) & 1u64 == 1u64,
    ;
    if j < tz {
        assert(!bit_of(m, j));
        assert(((m & ((m - 1) as u64)) >> j) & 1u64 != 1u64) by (bit_vector)
            requires
                (m >> j) & 1u64 != 1u64,
                m != 0,
        ;
    } else if j == tz {
        assert(((m & ((m - 1) as u64)) >> tz) & 1u64 != 1u64) by (bit_vector)
            requires
                tz < 64,
                m & (((1u64 << tz) - 1u64) as u64) == 0,
                (m >> tz) & 1u64 == 1u64,
        ;
    } else {
        assert((((m & ((m - 1) as u64)) >> j) & 1u64 == 1u64) == ((m >> j) & 1u64 == 1u64))
            by (bit_vector)
            requires
                tz < j,
                j < 64,
                (m >> tz) & 1u64 == 1u64,
        ;
    }
}

/// Clearing the lowest set bit makes a nonzero word strictly smaller.
pub proof fn lemma_and_not_greater(m: u64)
    requires
        m != 0,
    ensures
        m & ((m - 1) as u64) < m,
{
    assert(m & ((m - 1) as u64) < m) by (bit_vector)
        requires
            m != 0,
    ;
}

} // verus!
