//! Deterministic randomness for frame-branch selection.
//!
//! The original engine draws `rand() % 100 + 1`. That draw sits behind [`BranchRng`] so
//! playback is reproducible and testable (a scripted source can be injected), and a small
//! seedable default is provided so nothing depends on a global generator.

use vstd::prelude::*;
use vstd::wrapping::u64_specs::{wrapping_add, wrapping_mul};

verus! {

/// Source of `1..=100` branch rolls.
pub trait BranchRng: Sized {
    /// The roll this source returns next.
    spec fn next_roll(&self) -> u32;

    /// This source once it has returned its next roll.
    spec fn rolled(&self) -> Self;

    /// Return a value in `1..=100`, matching `rand() % 100 + 1`: the source's next roll.
    fn roll_1_100(&mut self) -> (r: u32)
        ensures
            1 <= r <= 100,
            r == old(self).next_roll(),
            *final(self) == old(self).rolled(),
    ;
}

/// The first `n` rolls of `rng`, in order.
pub open spec fn rolls_of<R: BranchRng>(rng: R, n: nat) -> Seq<u32>
    decreases n,
{
    if n == 0 {
        Seq::empty()
    } else {
        seq![rng.next_roll()] + rolls_of(rng.rolled(), (n - 1) as nat)
    }
}

/// `rng` once it has returned `n` rolls.
pub open spec fn after_rolls<R: BranchRng>(rng: R, n: nat) -> R
    decreases n,
{
    if n == 0 {
        rng
    } else {
        after_rolls(rng.rolled(), (n - 1) as nat)
    }
}

/// The SplitMix64 state increment (the 64-bit golden ratio).
pub const GOLDEN_GAMMA: u64 = 0x9E37_79B9_7F4A_7C15;

/// The SplitMix64 output function applied to an advanced state.
pub open spec fn mix(s: u64) -> u64 {
    let z1 = wrapping_mul(s ^ (s >> 30u64), 0xBF58_476D_1CE4_E5B9u64);
    let z2 = wrapping_mul(z1 ^ (z1 >> 27u64), 0x94D0_49BB_1331_11EBu64);
    z2 ^ (z2 >> 31u64)
}

/// A tiny, fast, seedable PRNG (SplitMix64). Deterministic for a given seed.
#[derive(Clone, Debug)]
pub struct SplitMix64 {
    state: u64,
}

impl View for SplitMix64 {
    type V = u64;

    /// The generator's state.
    closed spec fn view(&self) -> u64 {
        self.state
    }
}

impl SplitMix64 {
    /// Create a generator from `seed`.
    pub fn new(seed: u64) -> (g: SplitMix64)
        ensures
            g@ == seed,
    {
        SplitMix64 { state: seed }
    }

    /// Next raw 64-bit value: advance the state by the golden gamma, then mix it.
    pub fn next_u64(&mut self) -> (r: u64)
        ensures
            final(self)@ == wrapping_add(old(self)@, GOLDEN_GAMMA),
            r == mix(final(self)@),
    {
        self.state = self.state.wrapping_add(GOLDEN_GAMMA);
        let mut z = self.state;
        z = (z ^ (z >> 30)).wrapping_mul(0xBF58_476D_1CE4_E5B9);
        z = (z ^ (z >> 27)).wrapping_mul(0x94D0_49BB_1331_11EB);
        z ^ (z >> 31)
    }
}

/// What a generator's next roll is and where it leaves the generator.
pub proof fn lemma_split_mix_roll(g: SplitMix64)
    ensures
        g.next_roll() == mix(wrapping_add(g@, GOLDEN_GAMMA)) % 100 + 1,
        g.rolled()@ == wrapping_add(g@, GOLDEN_GAMMA),
{
}

impl BranchRng for SplitMix64 {
    closed spec fn next_roll(&self) -> u32 {
        (mix(wrapping_add(self@, GOLDEN_GAMMA)) % 100 + 1) as u32
    }

    closed spec fn rolled(&self) -> SplitMix64 {
        SplitMix64 { state: wrapping_add(self@, GOLDEN_GAMMA) }
    }

    /// The next raw value reduced to `1..=100`.
    fn roll_1_100(&mut self) -> (r: u32)
        ensures
            final(self)@ == wrapping_add(old(self)@, GOLDEN_GAMMA),
            r == mix(final(self)@) % 100 + 1,
    {
        let v = self.next_u64() % 100;
        v as u32 + 1
    }
}

} // verus!
