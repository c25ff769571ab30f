//! PCG32 pseudo-random number generator.
//!
//! A lightweight permuted congruential generator, used to produce
//! deterministic synthetic data.  Every step is specified bit for bit: the
//! state advances by a fixed multiply-and-add modulo 2^64, and the output is
//! an xorshift of the previous state rotated by its top bits.
//!
//! This generator produces random-looking output with good statistical
//! properties; it is not cryptographically safe and must never be used to
//! generate keys.

use vstd::prelude::*;

verus! {

/// Multiplier of the linear congruential state advance.
pub const DEFAULT_MULT: u64 = 0x5851_f42d_4c95_7f2d;

/// Little-endian bytes of `state` followed by those of `inc`.
pub open spec fn seed_bytes(state: u64, inc: u64) -> Seq<u8> {
    seq![
        state as u8,
        (state >> 8u64) as u8,
        (state >> 16u64) as u8,
        (state >> 24u64) as u8,
        (state >> 32u64) as u8,
        (state >> 40u64) as u8,
        (state >> 48u64) as u8,
        (state >> 56u64) as u8,
        inc as u8,
        (inc >> 8u64) as u8,
        (inc >> 16u64) as u8,
        (inc >> 24u64) as u8,
        (inc >> 32u64) as u8,
        (inc >> 40u64) as u8,
        (inc >> 48u64) as u8,
        (inc >> 56u64) as u8,
    ]
}

/// The `u64` stored little-endian at offset `off` of `b`.
pub open spec fn u64_le(b: Seq<u8>, off: int) -> u64 {
    (b[off] as u64) | ((b[off + 1] as u64) << 8u64) | ((b[off + 2] as u64) << 16u64) | ((b[off
        + 3] as u64) << 24u64) | ((b[off + 4] as u64) << 32u64) | ((b[off + 5] as u64) << 40u64) | (
    (b[off + 6] as u64) << 48u64) | ((b[off + 7] as u64) << 56u64)
}

/// One state advance: `state * DEFAULT_MULT + inc`, modulo 2^64.
pub open spec fn pcg_advance(state: u64, inc: u64) -> u64 {
    vstd::wrapping::u64_specs::wrapping_add(
        vstd::wrapping::u64_specs::wrapping_mul(state, DEFAULT_MULT),
        inc,
    )
}

/// The output derived from a state: xorshifted value, rotated by the state's
/// top five bits.
pub open spec fn pcg_output(s: u64) -> u64 {
    let xor_shifted = ((s >> 18u64) ^ s) >> 27u64;
    let rot = s >> 59u64;
    let shift = vstd::wrapping::u64_specs::wrapping_sub(0u64, rot) & 31u64;
    (xor_shifted >> rot) | (xor_shifted << shift)
}

/// The increment selected by a seed: its first eight bytes, shifted left one
/// and forced odd.
pub open spec fn pcg_seeded_inc(b: Seq<u8>) -> u64 {
    (u64_le(b, 0) << 1u64) | 1u64
}

/// The state reached by seeding: advance from zero, add the seed's second
/// eight bytes, advance again.
pub open spec fn pcg_seeded_state(b: Seq<u8>) -> u64 {
    let inc = pcg_seeded_inc(b);
    pcg_advance(vstd::wrapping::u64_specs::wrapping_add(pcg_advance(0u64, inc), u64_le(b, 8)), inc)
}

/// Reassembling the seed's little-endian bytes gives back the two words.
pub proof fn lemma_seed_bytes_roundtrip(state: u64, inc: u64)
    ensures
        u64_le(seed_bytes(state, inc), 0) == state,
        u64_le(seed_bytes(state, inc), 8) == inc,
{
    assert((state as u8 as u64) | (((state >> 8u64) as u8 as u64) << 8u64) | (((state
        >> 16u64) as u8 as u64) << 16u64) | (((state >> 24u64) as u8 as u64) << 24u64) | (((state
        >> 32u64) as u8 as u64) << 32u64) | (((state >> 40u64) as u8 as u64) << 40u64) | (((state
        >> 48u64) as u8 as u64) << 48u64) | (((state >> 56u64) as u8 as u64) << 56u64) == state)
        by (bit_vector);
    assert((inc as u8 as u64) | (((inc >> 8u64) as u8 as u64) << 8u64) | (((inc
        >> 16u64) as u8 as u64) << 16u64) | (((inc >> 24u64) as u8 as u64) << 24u64) | (((inc
        >> 32u64) as u8 as u64) << 32u64) | (((inc >> 40u64) as u8 as u64) << 40u64) | (((inc
        >> 48u64) as u8 as u64) << 48u64) | (((inc >> 56u64) as u8 as u64) << 56u64) == inc)
        by (bit_vector);
}

/// Seed for the [`Pcg32`] PRNG: sixteen bytes, two little-endian words.
#[derive(Debug)]
pub struct Pcg32Seed(pub [u8; 16]);

impl Pcg32Seed {
    /// Create a seed from an initial state (`state`) and a sequence
    /// index (`inc`), stored little-endian in that order.
    pub fn from_state_inc(state: u64, inc: u64) -> (r: Self)
        ensures
            r.0@ == seed_bytes(state, inc),
    {
        let mut w = [0u8; 16];
        w[0] = #[verifier::truncate] (state as u8);
        w[1] = #[verifier::truncate] ((state >> 8u64) as u8);
        w[2] = #[verifier::truncate] ((state >> 16u64) as u8);
        w[3] = #[verifier::truncate] ((state >> 24u64) as u8);
        w[4] = #[verifier::truncate] ((state >> 32u64) as u8);
        w[5] = #[verifier::truncate] ((state >> 40u64) as u8);
        w[6] = #[verifier::truncate] ((state >> 48u64) as u8);
        w[7] = #[verifier::truncate] ((state >> 56u64) as u8);
        w[8] = #[verifier::truncate] (inc as u8);
        w[9] = #[verifier::truncate] ((inc >> 8u64) as u8);
        w[10] = #[verifier::truncate] ((inc >> 16u64) as u8);
        w[11] = #[verifier::truncate] ((inc >> 24u64) as u8);
        w[12] = #[verifier::truncate] ((inc >> 32u64) as u8);
        w[13] = #[verifier::truncate] ((inc >> 40u64) as u8);
        w[14] = #[verifier::truncate] ((inc >> 48u64) as u8);
        w[15] = #[verifier::truncate] ((inc >> 56u64) as u8);
        proof {
            assert(w@ =~= seed_bytes(state, inc));
        }
        Pcg32Seed(w)
    }
}

impl Default for Pcg32Seed {
    /// The all-zero seed.
    fn default() -> (r: Self)
        ensures
            r.0@ =~= seed_bytes(0, 0),
    {
        let w = [0u8; 16];
        proof {
            assert(0u64 as u8 == 0u8 && (0u64 >> 8u64) as u8 == 0u8 && (0u64 >> 16u64) as u8 == 0u8
                && (0u64 >> 24u64) as u8 == 0u8 && (0u64 >> 32u64) as u8 == 0u8 && (0u64
                >> 40u64) as u8 == 0u8 && (0u64 >> 48u64) as u8 == 0u8 && (0u64 >> 56u64) as u8
                == 0u8) by (bit_vector);
            assert(w@ =~= seed_bytes(0, 0));
        }
        Pcg32Seed(w)
    }
}

/// PCG32 pseudo-random number generator: a 64-bit congruential state with a
/// permuted output function.
#[derive(Debug, Clone, PartialEq, Eq, Structural)]
pub struct Pcg32 {
    state: u64,
    inc: u64,
}

impl Pcg32 {
    /// Current congruential state.
    pub closed spec fn state_spec(self) -> u64 {
        self.state
    }

    /// Current (odd) increment.
    pub closed spec fn inc_spec(self) -> u64 {
        self.inc
    }

    /// Create a new `Pcg32` instance using a given seed.
    pub fn new(seed: Pcg32Seed) -> (r: Self)
        ensures
            r.inc_spec() == pcg_seeded_inc(seed.0@),
            r.state_spec() == pcg_seeded_state(seed.0@),
    {
        let mut rng = Pcg32 { state: 0, inc: 0 };
        rng.reset(seed);
        rng
    }

    /// Reset the PRNG instance using a given seed.
    pub fn reset(&mut self, seed: Pcg32Seed)
        ensures
            final(self).inc_spec() == pcg_seeded_inc(seed.0@),
            final(self).state_spec() == pcg_seeded_state(seed.0@),
    {
        let inc = u64_at(&seed, 0);
        let state = u64_at(&seed, 8);
        self.state = 0;
        self.inc = (inc << 1u64) | 1;
        self.generate();
        self.state = self.state.wrapping_add(state);
        self.generate();
    }

    /// Rebuild a generator from a dumped (state, increment) pair.
    pub fn load_state(state: u64, inc: u64) -> (r: Self)
        ensures
            r.state_spec() == state,
            r.inc_spec() == inc,
    {
        Pcg32 { state, inc }
    }

    /// The raw (state, increment) pair, for persistence by the caller.
    pub fn dump_state(&self) -> (r: (u64, u64))
        ensures
            r.0 == self.state_spec(),
            r.1 == self.inc_spec(),
    {
        (self.state, self.inc)
    }

    /// Generate a random output and advance the state once.
    pub fn generate(&mut self) -> (r: u64)
        ensures
            final(self).inc_spec() == old(self).inc_spec(),
            final(self).state_spec() == pcg_advance(old(self).state_spec(), old(self).inc_spec()),
            r == pcg_output(old(self).state_spec()),
    {
        let old_state = self.state;
        self.state = old_state.wrapping_mul(DEFAULT_MULT).wrapping_add(self.inc);
        let xor_shifted = ((old_state >> 18u64) ^ old_state) >> 27u64;
        let rot = old_state >> 59u64;
        let shift_raw = 0u64.wrapping_sub(rot);
        let shift = shift_raw & 31;
        proof {
            assert(old_state >> 59u64 < 64u64) by (bit_vector);
            assert(shift_raw & 31u64 < 64u64) by (bit_vector);
        }
        (xor_shifted >> rot) | (xor_shifted << shift)
    }
}

impl From<Pcg32Seed> for Pcg32 {
    fn from(seed: Pcg32Seed) -> (r: Self) {
        Pcg32::new(seed)
    }
}

impl vstd::std_specs::convert::FromSpecImpl<Pcg32Seed> for Pcg32 {
    open spec fn obeys_from_spec() -> bool {
        true
    }

    closed spec fn from_spec(seed: Pcg32Seed) -> Pcg32 {
        Pcg32 { state: pcg_seeded_state(seed.0@), inc: pcg_seeded_inc(seed.0@) }
    }
}

/// The `u64` stored little-endian at byte offset `off` of the seed.
fn u64_at(seed: &Pcg32Seed, off: usize) -> (r: u64)
    requires
        off + 8 <= 16,
    ensures
        r == u64_le(seed.0@, off as int),
{
    (seed.0[off] as u64) | ((seed.0[off + 1] as u64) << 8u64) | ((seed.0[off + 2] as u64) << 16u64)
        | ((seed.0[off + 3] as u64) << 24u64) | ((seed.0[off + 4] as u64) << 32u64) | ((seed.0[off
        + 5] as u64) << 40u64) | ((seed.0[off + 6] as u64) << 48u64) | ((seed.0[off + 7] as u64)
        << 56u64)
}

} // verus!
