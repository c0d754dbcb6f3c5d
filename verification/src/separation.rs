//! Domain separation: which constructions of this crate are told apart by
//! the parameter word that they start from, whatever key they share.

use crate::mac::MAC_IV;
use crate::prf::{short_iv, short_words, PRF_IV};
use crate::prng::PRNG_IV;
use crate::permutation::collide;
use crate::sponge::{initial_state, initial_words};
use vstd::prelude::*;

verus! {

/// The MAC, the PRF and the block generator each have a parameter word of
/// their own, and the short-input PRF has one apart from all three for
/// every pair of lengths it admits.
pub proof fn lemma_parameter_words_differ(m: u64, t: u64)
    requires
        m <= 16,
        t <= 16,
    ensures
        MAC_IV != PRF_IV,
        MAC_IV != PRNG_IV,
        PRF_IV != PRNG_IV,
        short_iv(m, t) != MAC_IV,
        short_iv(m, t) != PRF_IV,
        short_iv(m, t) != PRNG_IV,
{
    let iv = 0x80004c0000000000u64 ^ (m << 51) ^ (t << 35);
    assert(iv != 0x80808c0000000080u64 && iv != 0x80808c0000000000u64 && iv
        != 0x80808c0100000000u64) by (bit_vector)
        requires
            m <= 16,
            t <= 16,
            iv == 0x80004c0000000000u64 ^ (m << 51) ^ (t << 35),
    ;
}

/// Under one key, the MAC, the PRF, the block generator and the
/// short-input PRF all start from different words: the words that each of
/// them permutes first differ in the parameter word. What the permutation
/// makes of different words is not claimed here.
pub proof fn lemma_initial_words_differ(key: Seq<u8>, m: u64, t: u64, data: Seq<u8>)
    requires
        m <= 16,
        t <= 16,
    ensures
        initial_words(MAC_IV, key) != initial_words(PRF_IV, key),
        initial_words(MAC_IV, key) != initial_words(PRNG_IV, key),
        initial_words(PRF_IV, key) != initial_words(PRNG_IV, key),
        short_words(key, m, t, data) != initial_words(MAC_IV, key),
        short_words(key, m, t, data) != initial_words(PRF_IV, key),
        short_words(key, m, t, data) != initial_words(PRNG_IV, key),
{
    lemma_parameter_words_differ(m, t);
    assert(initial_words(MAC_IV, key)[0] == MAC_IV);
    assert(initial_words(PRF_IV, key)[0] == PRF_IV);
    assert(initial_words(PRNG_IV, key)[0] == PRNG_IV);
    assert(short_words(key, m, t, data)[0] == short_iv(m, t));
}

/// Under one key, any two of the MAC, the PRF and the block generator
/// start from different states, unless the permutation sends two
/// different inputs to one output.
pub proof fn lemma_initial_states_differ(key: Seq<u8>)
    ensures
        initial_state(MAC_IV, key) != initial_state(PRF_IV, key) || collide(
            initial_words(MAC_IV, key),
            initial_words(PRF_IV, key),
        ),
        initial_state(MAC_IV, key) != initial_state(PRNG_IV, key) || collide(
            initial_words(MAC_IV, key),
            initial_words(PRNG_IV, key),
        ),
        initial_state(PRF_IV, key) != initial_state(PRNG_IV, key) || collide(
            initial_words(PRF_IV, key),
            initial_words(PRNG_IV, key),
        ),
{
    lemma_initial_words_differ(key, 0, 0, Seq::empty());
}

} // verus!
