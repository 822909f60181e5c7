//! Deterministic pseudo-random numbers (xorshift64*) for repeatable
//! simulated noise. Not cryptographic.
use vstd::prelude::*;

verus! {

/// The state used in place of a zero seed.
pub const ZERO_SEED_STATE: u64 = 0x9E37_79B9_7F4A_7C15;

/// The multiplier of the xorshift64* output.
pub const OUTPUT_MULTIPLIER: u64 = 0x2545_F491_4F6C_DD1D;

/// One xorshift64 step of the state.
pub open spec fn xorshift(x: u64) -> u64 {
    let a = x ^ (x >> 12u64);
    let b = a ^ (a << 25u64);
    b ^ (b >> 27u64)
}

/// The number drawn when the state moves to `x`.
pub open spec fn scramble(x: u64) -> u64 {
    ((x as int * OUTPUT_MULTIPLIER as int) % 0x1_0000_0000_0000_0000) as u64
}

/// The state after `n` draws from state `x`.
pub open spec fn state_after(x: u64, n: nat) -> u64
    decreases n,
{
    if n == 0 {
        x
    } else {
        xorshift(state_after(x, (n - 1) as nat))
    }
}

/// The state with which a seed starts.
pub open spec fn seed_state(seed: u64) -> u64 {
    if seed == 0 {
        ZERO_SEED_STATE
    } else {
        seed
    }
}

/// A nonzero state never becomes zero, so the generator never gets stuck.
pub proof fn lemma_xorshift_nonzero(x: u64)
    requires
        x != 0,
    ensures
        xorshift(x) != 0,
{
    assert(x != 0 ==> ((x ^ (x >> 12u64)) ^ ((x ^ (x >> 12u64)) << 25u64)) ^ (((x ^ (x >> 12u64))
        ^ ((x ^ (x >> 12u64)) << 25u64)) >> 27u64) != 0) by (bit_vector);
}

/// A deterministic generator: the same seed always gives the same sequence
/// of numbers.
#[derive(Debug, Clone, Copy)]
pub struct DeterministicRng {
    state: u64,
}

impl DeterministicRng {
    /// The current state.
    pub closed spec fn state(&self) -> u64 {
        self.state
    }

    /// A generator seeded with `seed`; seed zero stands for a fixed nonzero
    /// state.
    pub fn new(seed: u64) -> (r: Self)
        ensures
            r.state() == seed_state(seed),
            r.state() != 0,
    {
        let state = if seed == 0 {
            ZERO_SEED_STATE
        } else {
            seed
        };
        DeterministicRng { state }
    }

    /// Draws the next 64-bit number.
    pub fn next_u64(&mut self) -> (r: u64)
        ensures
            final(self).state() == xorshift(old(self).state()),
            r == scramble(final(self).state()),
            old(self).state() != 0 ==> final(self).state() != 0,
    {
        let mut x = self.state;
        x ^= x >> 12u64;
        x ^= x << 25u64;
        x ^= x >> 27u64;
        proof {
            if self.state != 0 {
                lemma_xorshift_nonzero(self.state);
            }
        }
        self.state = x;
        x.wrapping_mul(OUTPUT_MULTIPLIER)
    }
}

/// Whatever the seed, the state stays nonzero after any number of draws.
pub proof fn lemma_seeded_state_never_zero(seed: u64, n: nat)
    ensures
        state_after(seed_state(seed), n) != 0,
    decreases n,
{
    if n > 0 {
        lemma_seeded_state_never_zero(seed, (n - 1) as nat);
        lemma_xorshift_nonzero(state_after(seed_state(seed), (n - 1) as nat));
    }
}

} // verus!
