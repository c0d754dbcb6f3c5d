//! A block generator for random-number layers, seeded with 16 bytes and
//! reseeded with fresh entropy of any length.

use crate::padding::{absorbed, block_at, lemma_absorbed_chunk, lemma_absorbed_short, pad_block};
use crate::permutation::{permute_12, permuted};
use crate::sponge::{compress, init, initial_state};
use vstd::prelude::*;

verus! {

/// The parameter word that a seed is keyed with: a 128-bit key, a rate of
/// 128 bits, twelve rounds and output without bound, as for the PRF, and a
/// 1 in the fourth byte, which no other construction sets, to mark the
/// generator.
pub const PRNG_IV: u64 = 0x80808c0100000000;

/// A generator of 16-byte blocks of pseudorandom output.
#[derive(Debug)]
pub struct AsconPrng {
    state: [u64; 5],
}

impl View for AsconPrng {
    type V = Seq<u64>;

    /// The five words of the state.
    closed spec fn view(&self) -> Seq<u64> {
        self.state@
    }
}

impl Clone for AsconPrng {
    /// An independent copy of the generator, with the same five words.
    fn clone(&self) -> (copy: Self)
        ensures
            copy@ == self@,
    {
        AsconPrng { state: self.state }
    }
}

impl AsconPrng {
    /// Introduces new seed material from a true random source: `entropy`,
    /// of any length, is absorbed as one whole message, its full 32-byte
    /// chunks first and its padded tail as the closing block. All later
    /// output depends on it, and an empty reseed is a reseed too.
    pub fn feed(&mut self, entropy: &[u8])
        ensures
            final(self)@ == absorbed(old(self)@, entropy@),
            final(self)@.len() == 5,
    {
        let mut pos: usize = 0;
        assert(entropy@.skip(0) =~= entropy@);
        while entropy.len() - pos >= 32
            invariant
                pos <= entropy.len(),
                absorbed(old(self)@, entropy@) == absorbed(self@, entropy@.skip(pos as int)),
            decreases entropy.len() - pos,
        {
            let block = block_at(entropy, pos);
            proof {
                lemma_absorbed_chunk(self@, entropy@, pos as int);
            }
            compress(&mut self.state, &block, 0);
            pos += 32;
        }
        let tail = &entropy[pos..entropy.len()];
        proof {
            assert(tail@ =~= entropy@.skip(pos as int));
            lemma_absorbed_short(self@, tail@);
        }
        let block = pad_block(tail);
        compress(&mut self.state, &block, 1);
    }

    /// Starts a generator from a 16-byte seed.
    pub fn from_seed(seed: [u8; 16]) -> (prng: Self)
        ensures
            prng@ == initial_state(PRNG_IV, seed@),
            prng@.len() == 5,
    {
        AsconPrng { state: init(PRNG_IV, &seed) }
    }

    /// Gives out the next block: words 0 and 1 of the state as they are.
    /// The state then moves on by one permutation, so that a block given
    /// out does not show the state that gives the next.
    pub fn generate(&mut self, results: &mut [u64; 2])
        ensures
            final(results)@ == seq![old(self)@[0], old(self)@[1]],
            final(self)@ == permuted(old(self)@),
            final(self)@.len() == 5,
    {
        let a = self.state[0];
        let b = self.state[1];
        self.state = permute_12(self.state);
        *results = [a, b];
        assert(results@ =~= seq![old(self)@[0], old(self)@[1]]);
    }
}

} // verus!
