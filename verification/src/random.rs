//! Uniform random sampling.
//!
//! Every consumer of randomness in this crate goes through the
//! `UniformRandom` capability: a sampler of uniform integers from an
//! inclusive range.  One implementation is backed by the `rand` crate's
//! thread-local generator; the other runs Lumbroso's Fast Dice Roller
//! over any source of random words, such as the seedable `SplitMix64`,
//! which makes generation reproducible.
//!
//! Nothing is promised of the sampled values beyond their range: every
//! algorithm in this crate is verified for every possible outcome.
use vstd::prelude::*;

verus! {

/// A source of random 32-bit words.
pub trait RandomBits {
    fn next_u32(&mut self) -> u32;
}

/// A sampler of uniform integers from an inclusive range.
pub trait UniformRandom {
    fn sample(&mut self, lo: u32, hi: u32) -> (r: u32)
        requires
            lo <= hi,
        ensures
            lo <= r <= hi,
    ;
}

/// Rounds of the dice roller before it settles for the lower bound.
/// Each round consumes one bit, and each full scan of the bound ends
/// the loop with probability at least one half, so running out is
/// vanishingly unlikely under any honest source.
const ROLLER_ROUNDS: u32 = 4096;

/// Samples an integer in `[unif[0], unif[1]]` with Lumbroso's Fast
/// Dice Roller over a generic word source, consuming one random bit
/// per round.
pub fn do_sample_rng<R: RandomBits>(unif: [u32; 2], rng: &mut R) -> (r: u32)
    requires
        unif[0] <= unif[1],
    ensures
        unif[0] <= r <= unif[1],
{
    let lo = unif[0];
    let hi = unif[1];
    if lo == hi {
        return lo;
    }
    let diff: u32 = hi - lo;
    if diff == 0xFFFFFFFF {
        return rng.next_u32();
    }
    let d: u64 = diff as u64;
    let mut x: u64 = 1;
    let mut y: u64 = 0;
    let mut next_bit: u32 = 32;
    let mut rngv: u32 = 0;
    let mut fuel: u32 = ROLLER_ROUNDS;
    while fuel > 0
        invariant
            lo == unif[0],
            hi == unif[1],
            lo <= hi,
            d == hi - lo,
            d < 0xFFFFFFFF,
            1 <= x <= d + 1,
            y < x,
        decreases fuel,
    {
        if next_bit >= 32 {
            next_bit = 0;
            rngv = rng.next_u32();
        }
        next_bit = next_bit + 1;
        proof {
            assert(rngv & 1 <= 1) by (bit_vector);
        }
        let bit: u64 = (rngv & 1) as u64;
        x = x * 2;
        y = y * 2 + bit;
        rngv = rngv >> 1;
        if x > d {
            x = x - d - 1;
            if y <= d {
                return lo + (y as u32);
            }
            y = y - d - 1;
        }
        fuel = fuel - 1;
    }
    lo
}

/// A small deterministic pseudorandom word source with a 64-bit state,
/// stepped by the splitmix64 mixing function.  Seeding it fixes the
/// whole stream, which makes generation reproducible.
pub struct SplitMix64 {
    state: u64,
}

impl SplitMix64 {
    pub fn new(seed: u64) -> SplitMix64 {
        SplitMix64 { state: seed }
    }
}

impl RandomBits for SplitMix64 {
    fn next_u32(&mut self) -> u32 {
        let s: u64 = self.state.wrapping_add(0x9E3779B97F4A7C15);
        self.state = s;
        let z0: u64 = (s ^ (s >> 30)).wrapping_mul(0xBF58476D1CE4E5B9);
        let z1: u64 = (z0 ^ (z0 >> 27)).wrapping_mul(0x94D049BB133111EB);
        let z2: u64 = z1 ^ (z1 >> 31);
        (z2 >> 32) as u32
    }
}

/// The Fast Dice Roller as a uniform sampler over any word source.
pub struct FastDiceRoller<R: RandomBits> {
    pub source: R,
}

impl<R: RandomBits> FastDiceRoller<R> {
    pub fn new(source: R) -> FastDiceRoller<R> {
        FastDiceRoller { source }
    }
}

impl<R: RandomBits> UniformRandom for FastDiceRoller<R> {
    fn sample(&mut self, lo: u32, hi: u32) -> (r: u32) {
        do_sample_rng([lo, hi], &mut self.source)
    }
}

/// A uniform sampler backed by the `rand` crate's thread-local
/// generator, as used by the interactive front ends.
pub struct ThreadRandom {
    rng: rand::rngs::ThreadRng,
}

#[verifier::external_type_specification]
#[verifier::external_body]
pub struct ExThreadRng(rand::rngs::ThreadRng);

impl ThreadRandom {
    /// Relies on rand::thread_rng: obtains a handle to the thread-local
    /// generator.
    #[verifier::external_body]
    pub fn new() -> ThreadRandom {
        ThreadRandom { rng: rand::thread_rng() }
    }
}

/// Relies on rand::Rng::gen_range: returns a uniformly distributed
/// value of the given inclusive range, which must be non-empty.
#[verifier::external_body]
fn thread_range(rng: &mut rand::rngs::ThreadRng, lo: u32, hi: u32) -> (r: u32)
    requires
        lo <= hi,
    ensures
        lo <= r <= hi,
{
    rand::Rng::gen_range(rng, lo..=hi)
}

impl UniformRandom for ThreadRandom {
    fn sample(&mut self, lo: u32, hi: u32) -> (r: u32) {
        thread_range(&mut self.rng, lo, hi)
    }
}

} // verus!
