//! The seeded generator behind every per-shred draw.
//!
//! All randomness in shred routing comes from a ChaCha20 stream keyed by the
//! shred seed, so that every node derives the same tree. The generator is an
//! outside type; this module states what the library relies on.

use rand::Rng;
use rand::SeedableRng;
use rand_chacha::ChaCha20Rng;
use vstd::prelude::*;

verus! {

#[verifier::external_type_specification]
#[verifier::external_body]
pub struct ExChaCha20Rng(ChaCha20Rng);

/// Where a generator stands: what keys its stream, and how many 32-bit
/// words of the stream it has handed out. The key is the seed together with
/// the number of the stream; a generator made from a seed alone, as every
/// generator of this library is, has the stream zero, and its key is the 32
/// bytes of the seed.
pub uninterp spec fn chacha_position(rng: ChaCha20Rng) -> (Seq<u8>, nat);

/// What one uniform draw in `[low, high)` yields for a generator whose
/// stream is keyed by `seed`, the seed together with the number of the
/// stream, and that stands at word `word_pos`: the value drawn, and the
/// word at which the generator stands afterwards.
pub uninterp spec fn uniform_u64(seed: Seq<u8>, word_pos: nat, low: u64, high: u64) -> (u64, nat);

/// The state of a generator as the contracts speak of it: what keys its
/// stream, which is the seed for a generator made from a seed alone, and
/// the word at which it stands.
pub struct RngState {
    pub seed: Seq<u8>,
    pub word_pos: nat,
}

impl RngState {
    /// The state of a generator freshly keyed by `seed`.
    pub open spec fn seeded(seed: Seq<u8>) -> RngState {
        RngState { seed, word_pos: 0 }
    }

    /// The value that a draw in `[low, high)` yields in this state. A draw
    /// never leaves its range; the model says so by falling back to `low`.
    pub open spec fn drawn(self, low: u64, high: u64) -> u64 {
        let value = uniform_u64(self.seed, self.word_pos, low, high).0;
        if low <= value && value < high {
            value
        } else {
            low
        }
    }

    /// The state after a draw in `[low, high)`.
    pub open spec fn after_draw(self, low: u64, high: u64) -> RngState {
        RngState { seed: self.seed, word_pos: uniform_u64(self.seed, self.word_pos, low, high).1 }
    }
}

/// The state of `rng`.
pub open spec fn rng_state(rng: ChaCha20Rng) -> RngState {
    RngState { seed: chacha_position(rng).0, word_pos: chacha_position(rng).1 }
}

/// `ChaCha20Rng::from_seed`: the generator keyed by `seed`, at the start of
/// its stream.
#[verifier::external_body]
pub(crate) fn seeded_rng(seed: [u8; 32]) -> (rng: ChaCha20Rng)
    ensures
        chacha_position(rng) == (seed@, 0nat),
{
    ChaCha20Rng::from_seed(seed)
}

/// `Rng::gen_range` on `u64`: one uniform draw in `[low, high)`. The value
/// lies in the range, and value and new position are those that the seed and
/// the old position determine. The call panics on an empty range, which the
/// precondition leaves out.
#[verifier::external_body]
pub(crate) fn gen_range_u64(rng: &mut ChaCha20Rng, low: u64, high: u64) -> (value: u64)
    requires
        low < high,
    ensures
        low <= value < high,
        value == uniform_u64(
            chacha_position(*old(rng)).0,
            chacha_position(*old(rng)).1,
            low,
            high,
        ).0,
        chacha_position(*final(rng)) == (
            chacha_position(*old(rng)).0,
            uniform_u64(chacha_position(*old(rng)).0, chacha_position(*old(rng)).1, low, high).1,
        ),
{
    rng.gen_range(low, high)
}

} // verus!
