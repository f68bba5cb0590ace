//! Seeded pseudo-random numbers for the procedural shelf modes: SplitMix64 (Vigna, 2013).

use vstd::prelude::*;
use vstd::wrapping::u64_specs;

verus! {

/// The Weyl increment added to the state before every draw.
pub const SPLITMIX64_GAMMA: u64 = 0x9E37_79B9_7F4A_7C15;

/// The output mix applied to the advanced state.
pub open spec fn splitmix64_mix(z: u64) -> u64 {
    let z1 = u64_specs::wrapping_mul(z ^ (z >> 30u64), 0xBF58_476D_1CE4_E5B9u64);
    let z2 = u64_specs::wrapping_mul(z1 ^ (z1 >> 27u64), 0x94D0_49BB_1331_11EBu64);
    z2 ^ (z2 >> 31u64)
}

/// The state after `k` draws from a generator seeded with `seed`.
pub open spec fn splitmix64_state_after(seed: u64, k: nat) -> u64
    decreases k,
{
    if k == 0 {
        seed
    } else {
        u64_specs::wrapping_add(splitmix64_state_after(seed, (k - 1) as nat), SPLITMIX64_GAMMA)
    }
}

/// The `k`-th value (0-based) drawn from a generator seeded with `seed`.
pub open spec fn splitmix64_output(seed: u64, k: nat) -> u64 {
    splitmix64_mix(splitmix64_state_after(seed, k + 1))
}

/// SplitMix64 generator: a 64-bit Weyl sequence followed by an output mix.
pub struct SplitMix64 {
    state: u64,
}

impl SplitMix64 {
    /// The current state.
    pub closed spec fn state(&self) -> u64 {
        self.state
    }

    /// A generator whose stream is fixed by `seed`.
    pub fn new(seed: u64) -> (g: Self)
        ensures
            g.state() == seed,
    {
        SplitMix64 { state: seed }
    }

    /// Advances the state by the Weyl increment and returns the mixed new state.
    pub fn next_u64(&mut self) -> (r: u64)
        ensures
            final(self).state() == u64_specs::wrapping_add(old(self).state(), SPLITMIX64_GAMMA),
            r == splitmix64_mix(final(self).state()),
    {
        self.state = self.state.wrapping_add(SPLITMIX64_GAMMA);
        let mut z = self.state;
        z = (z ^ (z >> 30u64)).wrapping_mul(0xBF58_476D_1CE4_E5B9u64);
        z = (z ^ (z >> 27u64)).wrapping_mul(0x94D0_49BB_1331_11EBu64);
        z ^ (z >> 31u64)
    }
}

/// Jump-ahead: after `k` draws the state is `seed + k * GAMMA` modulo 2^64, so the whole
/// stream is a function of the seed alone.
pub proof fn lemma_splitmix64_state_closed_form(seed: u64, k: nat)
    ensures
        splitmix64_state_after(seed, k) as int == (seed + k * SPLITMIX64_GAMMA) % 0x1_0000_0000_0000_0000,
    decreases k,
{
    let m: int = 0x1_0000_0000_0000_0000;
    if k == 0 {
        assert(seed as int % m == seed as int);
    } else {
        lemma_splitmix64_state_closed_form(seed, (k - 1) as nat);
        let prev = splitmix64_state_after(seed, (k - 1) as nat) as int;
        let g = SPLITMIX64_GAMMA as int;
        let x = seed + (k - 1) * g;
        assert(prev == x % m);
        assert(k * g == (k - 1) * g + g) by (nonlinear_arith);
        vstd::arithmetic::div_mod::lemma_add_mod_noop(x, g, m);
        assert(g % m == g);
        if prev + g > u64::MAX {
            assert((prev + g - m) == (prev + g) % m);
        } else {
            assert((prev + g) % m == prev + g) by {
                vstd::arithmetic::div_mod::lemma_small_mod((prev + g) as nat, m as nat);
            }
        }
    }
}

} // verus!
