use vstd::prelude::*;

verus! {

/// The additive constant of the splitmix step.
pub const GOLDEN_GAMMA: u64 = 0x9E37_79B9_7F4A_7C15;

/// The multiplier folding one seed byte into the state.
pub const FOLD_PRIME: u64 = 0x0000_0100_0000_01B3;

/// Addition on 64-bit words, wrapping around on overflow.
pub open spec fn wadd64(a: u64, b: u64) -> u64 {
    ((a + b) % 0x1_0000_0000_0000_0000) as u64
}

/// Multiplication on 64-bit words, wrapping around on overflow.
pub open spec fn wmul64(a: u64, b: u64) -> u64 {
    ((a * b) % 0x1_0000_0000_0000_0000) as u64
}

/// The splitmix output function: a fixed bijective scramble of the state.
pub open spec fn mix64(z0: u64) -> u64 {
    let z1 = wmul64(z0 ^ (z0 >> 30), 0xBF58_476D_1CE4_E5B9);
    let z2 = wmul64(z1 ^ (z1 >> 27), 0x94D0_49BB_1331_11EB);
    z2 ^ (z2 >> 31)
}

/// The state obtained by folding the first `n` seed bytes into zero.
pub open spec fn seed_fold(s: Seq<u8>, n: int) -> u64
    decreases n,
{
    if n <= 0 {
        0
    } else {
        wadd64(wmul64(seed_fold(s, n - 1), FOLD_PRIME), s[n - 1] as u64)
    }
}

fn wrapping_add64(a: u64, b: u64) -> (r: u64)
    ensures
        r == wadd64(a, b),
{
    let s: u128 = (a as u128) + (b as u128);
    let m: u128 = s % 0x1_0000_0000_0000_0000u128;
    m as u64
}

fn wrapping_mul64(a: u64, b: u64) -> (r: u64)
    ensures
        r == wmul64(a, b),
{
    proof {
        assert((a as int) * (b as int) <= (u64::MAX as int) * (u64::MAX as int))
            by (nonlinear_arith)
            requires
                0 <= a as int <= u64::MAX as int,
                0 <= b as int <= u64::MAX as int,
        ;
    }
    let p: u128 = (a as u128) * (b as u128);
    let m: u128 = p % 0x1_0000_0000_0000_0000u128;
    m as u64
}

/// A deterministic pseudo-random source in the splitmix family: the state
/// advances by a fixed stride per draw and each output is a fixed scramble
/// of the state, so the whole stream is a function of the seed alone.
pub struct Rng {
    pub state: u64,
}

impl Rng {
    /// The generator state after folding in a full 32-byte seed.
    pub open spec fn seeded(seed: Seq<u8>) -> u64 {
        seed_fold(seed, 32)
    }

    /// Builds the generator from a 32-byte seed; the same seed always gives
    /// the same stream.
    pub fn from_seed(seed: &[u8; 32]) -> (r: Rng)
        ensures
            r.state == Rng::seeded(seed@),
    {
        let mut state: u64 = 0;
        let mut i: usize = 0;
        while i < 32
            invariant
                0 <= i <= 32,
                state == seed_fold(seed@, i as int),
            decreases 32 - i,
        {
            state = wrapping_add64(wrapping_mul64(state, FOLD_PRIME), seed[i] as u64);
            i = i + 1;
        }
        Rng { state }
    }

    /// Relies on `std::time::SystemTime::now`: a seed taken from the clock
    /// when no explicit seed is given; nothing is promised of its value.
    #[verifier::external_body]
    pub fn from_entropy() -> (r: Rng)
    {
        let nanos: u128 = match std::time::SystemTime::now().duration_since(
            std::time::UNIX_EPOCH,
        ) {
            Ok(d) => d.as_nanos(),
            Err(_) => 0,
        };
        Rng { state: nanos as u64 }
    }

    /// Draws the next word of the stream.
    pub fn next_u64(&mut self) -> (r: u64)
        ensures
            final(self).state == wadd64(old(self).state, GOLDEN_GAMMA),
            r == mix64(final(self).state),
    {
        self.state = wrapping_add64(self.state, GOLDEN_GAMMA);
        let z0 = self.state;
        let z1 = wrapping_mul64(z0 ^ (z0 >> 30), 0xBF58_476D_1CE4_E5B9);
        let z2 = wrapping_mul64(z1 ^ (z1 >> 27), 0x94D0_49BB_1331_11EB);
        z2 ^ (z2 >> 31)
    }

    /// Draws a value below the given bound.
    pub fn below(&mut self, n: u64) -> (r: u64)
        requires
            n >= 1,
        ensures
            final(self).state == wadd64(old(self).state, GOLDEN_GAMMA),
            r == mix64(final(self).state) % n,
            r < n,
    {
        let v = self.next_u64();
        v % n
    }

    /// Draws a fair coin flip.
    pub fn coin(&mut self) -> (r: bool)
        ensures
            final(self).state == wadd64(old(self).state, GOLDEN_GAMMA),
            r == (mix64(final(self).state) % 2 == 0),
    {
        let v = self.below(2);
        v == 0
    }
}

} // verus!
