//! The output stage's dither noise: a 32-bit linear congruential generator whose
//! state persists across blocks.

use vstd::prelude::*;

verus! {

/// Seed of the dither generator.
pub const DITHER_SEED: u32 = 0xC0FFEE;
/// Multiplier of the generator.
pub const LCG_MUL: u32 = 1664525;
/// Increment of the generator.
pub const LCG_INC: u32 = 1013904223;
/// Constant the state is XOR-ed with before it becomes noise.
pub const DITHER_XOR: u32 = 0x9E3779B9;

/// One generator step: `state * 1664525 + 1013904223` modulo 2^32.
pub open spec fn lcg_step(s: u32) -> u32 {
    ((s as int * LCG_MUL as int + LCG_INC as int) % 0x1_0000_0000) as u32
}

/// Persistent state of the dither generator.
pub struct DitherRng {
    state: u32,
}

impl DitherRng {
    /// Current generator state.
    pub closed spec fn state_spec(&self) -> u32 {
        self.state
    }

    /// A generator at the seed.
    pub fn new() -> (r: Self)
        ensures
            r.state_spec() == DITHER_SEED,
    {
        DitherRng { state: DITHER_SEED }
    }

    /// Current generator state.
    pub fn state(&self) -> (s: u32)
        ensures
            s == self.state_spec(),
    {
        self.state
    }

    /// Advances the generator one step and returns the new state XOR `0x9E3779B9`,
    /// the raw bits of the next dither sample.
    pub fn next_bits(&mut self) -> (bits: u32)
        ensures
            final(self).state_spec() == lcg_step(old(self).state_spec()),
            final(self).state_spec() as int == (old(self).state_spec() as int * 1664525
                + 1013904223) % 0x1_0000_0000,
            bits == final(self).state_spec() ^ DITHER_XOR,
            bits == final(self).state_spec() ^ 0x9E3779B9u32,
    {
        let s = self.state;
        let next = s.wrapping_mul(LCG_MUL).wrapping_add(LCG_INC);
        proof {
            let m = 0x1_0000_0000int;
            vstd::arithmetic::div_mod::lemma_add_mod_noop(s as int * LCG_MUL as int, LCG_INC as int, m);
            vstd::arithmetic::div_mod::lemma_mod_twice(s as int * LCG_MUL as int, m);
            vstd::arithmetic::div_mod::lemma_small_mod(LCG_INC as nat, m as nat);
        }
        self.state = next;
        next ^ DITHER_XOR
    }
}

/// The dither step is one-to-one: for every state `s`, one step gives
/// `(s * 1664525 + 1013904223) mod 2^32`, and `(t - 1013904223) * 4276115653 mod 2^32`
/// (4276115653 is the inverse of 1664525 modulo 2^32) gives `s` back. So two
/// different states never step to the same state, and the noise sequence does not
/// fall into a shorter cycle from merging states.
pub proof fn lemma_lcg_step_invertible(s: u32)
    ensures
        lcg_step(s) as int == (s as int * 1664525 + 1013904223) % 0x1_0000_0000,
        ((lcg_step(s) as int - 1013904223) * 4276115653) % 0x1_0000_0000 == s as int,
{
    let m = 0x1_0000_0000int;
    let t = lcg_step(s) as int;
    let sa = s as int * 1664525;
    assert(t == (sa + 1013904223) % m);
    vstd::arithmetic::div_mod::lemma_add_mod_noop_right(-1013904223, sa + 1013904223, m);
    assert((t - 1013904223) % m == sa % m);
    vstd::arithmetic::div_mod::lemma_mul_mod_noop_left(t - 1013904223, 4276115653, m);
    vstd::arithmetic::div_mod::lemma_mul_mod_noop_left(sa, 4276115653, m);
    assert(sa * 4276115653 == s as int + m * (s as int * 1657219));
    vstd::arithmetic::div_mod::lemma_mod_multiples_vanish(s as int * 1657219, s as int, m);
    vstd::arithmetic::div_mod::lemma_small_mod(s as nat, m as nat);
}

/// Different generator states step to different states.
pub proof fn lemma_lcg_step_injective(s1: u32, s2: u32)
    ensures
        s1 != s2 ==> lcg_step(s1) != lcg_step(s2),
{
    lemma_lcg_step_invertible(s1);
    lemma_lcg_step_invertible(s2);
}

} // verus!
