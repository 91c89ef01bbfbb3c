//! Deterministic pseudo-random generators: SplitMix64 for reproducible rotations and
//! xorshift64* for sampling.

use vstd::prelude::*;

verus! {

/// Golden-ratio increment added to the state on every draw.
pub const SPLITMIX_GAMMA: u64 = 0x9e3779b97f4a7c15;

/// The SplitMix64 output function applied to an already-advanced state.
pub open spec fn spec_splitmix_output(z0: u64) -> u64 {
    let z1 = ((z0 ^ (z0 >> 30u64)) as int * 0xbf58476d1ce4e5b9int) % 0x1_0000_0000_0000_0000int;
    let z1 = z1 as u64;
    let z2 = ((z1 ^ (z1 >> 27u64)) as int * 0x94d049bb133111ebint) % 0x1_0000_0000_0000_0000int;
    let z2 = z2 as u64;
    z2 ^ (z2 >> 31u64)
}

/// The state after one draw.
pub open spec fn spec_splitmix_advance(state: u64) -> u64 {
    ((state as int + SPLITMIX_GAMMA as int) % 0x1_0000_0000_0000_0000int) as u64
}

/// The state after `k` draws from state `state`.
pub open spec fn spec_splitmix_advance_n(state: u64, k: nat) -> u64
    decreases k,
{
    if k == 0 {
        state
    } else {
        spec_splitmix_advance(spec_splitmix_advance_n(state, (k - 1) as nat))
    }
}

/// After `k` draws, a generator seeded with `seed` holds `seed + k * gamma` (modulo 2^64);
/// so the next draw returns the reference SplitMix64 output of `seed + (k + 1) * gamma`,
/// and two generators made with the same seed give the same sequence.
pub proof fn lemma_splitmix_closed_form(seed: u64, k: nat)
    ensures
        spec_splitmix_advance_n(seed, k) == ((seed as int + k * SPLITMIX_GAMMA as int)
            % 0x1_0000_0000_0000_0000int) as u64,
    decreases k,
{
    if k > 0 {
        lemma_splitmix_closed_form(seed, (k - 1) as nat);
        let m = 0x1_0000_0000_0000_0000int;
        let a = seed as int + (k - 1) * SPLITMIX_GAMMA as int;
        assert(0 <= a % m < m) by {
            vstd::arithmetic::div_mod::lemma_mod_bound(a, m);
        }
        vstd::arithmetic::div_mod::lemma_add_mod_noop(a, SPLITMIX_GAMMA as int, m);
        vstd::arithmetic::div_mod::lemma_small_mod(SPLITMIX_GAMMA as nat, m as nat);
        vstd::arithmetic::div_mod::lemma_mod_twice(a, m);
        assert(a + SPLITMIX_GAMMA as int == seed as int + k * SPLITMIX_GAMMA as int) by (nonlinear_arith)
            requires
                a == seed as int + (k - 1) * SPLITMIX_GAMMA as int,
        ;
    }
}

/// Simple deterministic SplitMix64 pseudo-random number generator.
#[derive(Debug, Clone)]
pub struct SplitMix64 {
    state: u64,
}

impl SplitMix64 {
    /// The current internal state.
    pub closed spec fn state(&self) -> u64 {
        self.state
    }

    /// Creates a generator whose state is `seed`.
    pub fn new(seed: u64) -> (r: Self)
        ensures
            r.state() == seed,
    {
        Self { state: seed }
    }

    /// Advances the state by the golden-ratio increment and returns the mixed 64-bit output.
    pub fn next_u64(&mut self) -> (r: u64)
        ensures
            final(self).state() == spec_splitmix_advance(old(self).state()),
            r == spec_splitmix_output(final(self).state()),
    {
        self.state = self.state.wrapping_add(SPLITMIX_GAMMA);
        let mut z = self.state;
        z = (z ^ (z >> 30)).wrapping_mul(0xbf58476d1ce4e5b9);
        z = (z ^ (z >> 27)).wrapping_mul(0x94d049bb133111eb);
        z ^ (z >> 31)
    }

    /// The high 32 bits of the next 64-bit output.
    pub fn next_u32(&mut self) -> (r: u32)
        ensures
            final(self).state() == spec_splitmix_advance(old(self).state()),
            r == (spec_splitmix_output(final(self).state()) >> 32u64) as u32,
    {
        (self.next_u64() >> 32) as u32
    }
}

/// State used in place of a zero seed, on which xorshift would stay at zero for ever.
pub const FALLBACK_RNG_SEED: u64 = 0x853c49e6748fea9b;

/// Output multiplier of xorshift64*.
pub const XORSHIFT_MULTIPLIER: u64 = 0x2545F4914F6CDD1D;

/// The state a seed starts the generator in: the seed itself, or the fallback for zero.
pub open spec fn spec_seeded(seed: u64) -> u64 {
    if seed == 0 {
        FALLBACK_RNG_SEED
    } else {
        seed
    }
}

/// One xorshift step of the state (shifts 12, 25, 27).
pub open spec fn spec_xorshift(x: u64) -> u64 {
    let a = x ^ (x >> 12u64);
    let b = a ^ ((a << 25u64) as u64);
    b ^ (b >> 27u64)
}

/// The 24 random bits drawn from a (new) state: the high bits of the state times the
/// multiplier, modulo 2^64.
pub open spec fn spec_xorshift_bits(x: u64) -> u32 {
    ((((x as int * XORSHIFT_MULTIPLIER as int) % 0x1_0000_0000_0000_0000int) as u64 >> 40u64)) as u32
}

/// A xorshift step never takes a non-zero state to zero: each of its three shift-xor
/// stages is invertible.
pub proof fn lemma_xorshift_nonzero(x: u64)
    requires
        x != 0,
    ensures
        spec_xorshift(x) != 0,
{
    let a = x ^ (x >> 12u64);
    assert(a != 0) by (bit_vector)
        requires
            x != 0,
            a == x ^ (x >> 12u64),
    ;
    let b = a ^ ((a << 25u64) as u64);
    assert(b != 0) by (bit_vector)
        requires
            a != 0,
            b == a ^ ((a << 25u64) as u64),
    ;
    let c = b ^ (b >> 27u64);
    assert(c != 0) by (bit_vector)
        requires
            b != 0,
            c == b ^ (b >> 27u64),
    ;
}

/// Xorshift64* generator of 24-bit draws; its state is never zero.
#[derive(Debug)]
pub struct XorShift64Star {
    state: u64,
}

impl XorShift64Star {
    /// The current internal state.
    pub closed spec fn state(&self) -> u64 {
        self.state
    }

    #[verifier::type_invariant]
    spec fn nonzero(&self) -> bool {
        self.state != 0
    }

    /// A generator started from `seed` (a zero seed is replaced by the fallback).
    pub fn new(seed: u64) -> (r: Self)
        ensures
            r.state() == spec_seeded(seed),
            r.state() != 0,
    {
        XorShift64Star { state: if seed == 0 { FALLBACK_RNG_SEED } else { seed } }
    }

    /// Restarts the generator from `seed` (a zero seed is replaced by the fallback).
    pub fn set_seed(&mut self, seed: u64)
        ensures
            final(self).state() == spec_seeded(seed),
    {
        self.state = if seed == 0 { FALLBACK_RNG_SEED } else { seed };
    }

    /// Advances the state by one xorshift step and returns 24 random bits of it.
    pub fn next_bits(&mut self) -> (r: u32)
        ensures
            final(self).state() == spec_xorshift(old(self).state()),
            final(self).state() != 0,
            r == spec_xorshift_bits(final(self).state()),
            r < 0x100_0000,
    {
        proof {
            use_type_invariant(&*self);
            lemma_xorshift_nonzero(self.state);
        }
        let x = self.state;
        let a = x ^ (x >> 12);
        let b = a ^ (a << 25);
        let c = b ^ (b >> 27);
        self.state = c;
        let m = c.wrapping_mul(XORSHIFT_MULTIPLIER);
        let r = (m >> 40) as u32;
        assert(m >> 40u64 < 0x100_0000) by (bit_vector);
        r
    }
}

} // verus!
