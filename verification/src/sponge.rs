//! The three state transformations of the sponge: keyed initialisation,
//! absorption of one block, and extraction of one block of output.
//!
//! The state is five 64-bit words. Bytes enter and leave it in big-endian
//! order, 32 bytes at a time on the way in and 16 on the way out.

use crate::permutation::{permute_12, permuted};
use crate::word::{be_bytes, be_word, lemma_bytes_of_word, load_be, store_be};
use vstd::prelude::*;

verus! {

/// The words handed to the permutation when a state is keyed: the
/// parameter word, the key as two big-endian words, and two zero words.
pub open spec fn initial_words(iv: u64, key: Seq<u8>) -> Seq<u64> {
    seq![iv, be_word(key.subrange(0, 8)), be_word(key.subrange(8, 16)), 0, 0]
}

/// The state of a freshly keyed sponge: the initial words, permuted once.
pub open spec fn initial_state(iv: u64, key: Seq<u8>) -> Seq<u64> {
    permuted(initial_words(iv, key))
}

/// The state with a 32-byte block folded in: the block's four big-endian
/// words XORed into words 0 to 3, and `last` XORed into word 4.
pub open spec fn mixed(state: Seq<u64>, block: Seq<u8>, last: u64) -> Seq<u64> {
    seq![
        state[0] ^ be_word(block.subrange(0, 8)),
        state[1] ^ be_word(block.subrange(8, 16)),
        state[2] ^ be_word(block.subrange(16, 24)),
        state[3] ^ be_word(block.subrange(24, 32)),
        state[4] ^ last,
    ]
}

/// The state after absorbing one block: the block mixed in, then one
/// permutation.
pub open spec fn compressed(state: Seq<u64>, block: Seq<u8>, last: u64) -> Seq<u64> {
    permuted(mixed(state, block, last))
}

/// The 16 bytes of output that a state offers: words 0 and 1, big-endian.
pub open spec fn extracted(state: Seq<u64>) -> Seq<u8> {
    be_bytes(state[0]) + be_bytes(state[1])
}

/// Keys a fresh state with the parameter word `iv` and a 128-bit key.
pub fn init(iv: u64, key: &[u8; 16]) -> (state: [u64; 5])
    ensures
        state@ == initial_state(iv, key@),
{
    let k0 = load_be(key, 0);
    let k1 = load_be(key, 8);
    let words = [iv, k0, k1, 0, 0];
    assert(words@ =~= initial_words(iv, key@));
    permute_12(words)
}

/// Absorbs one 32-byte block into the state. `last` is XORed into the
/// fifth word: 0 for a block inside the input, 1 for the block that ends it.
pub fn compress(state: &mut [u64; 5], block: &[u8; 32], last: u64)
    ensures
        final(state)@ == compressed(old(state)@, block@, last),
{
    let x0 = load_be(block, 0);
    let x1 = load_be(block, 8);
    let x2 = load_be(block, 16);
    let x3 = load_be(block, 24);
    let words = [state[0] ^ x0, state[1] ^ x1, state[2] ^ x2, state[3] ^ x3, state[4] ^ last];
    assert(words@ =~= mixed(old(state)@, block@, last));
    *state = permute_12(words);
}

/// Reads 16 bytes of output from the state, which it leaves as it is.
pub fn extract(state: &[u64; 5]) -> (out: [u8; 16])
    ensures
        out@ == extracted(state@),
{
    let a = store_be(state[0]);
    let b = store_be(state[1]);
    let out = [
        a[0],
        a[1],
        a[2],
        a[3],
        a[4],
        a[5],
        a[6],
        a[7],
        b[0],
        b[1],
        b[2],
        b[3],
        b[4],
        b[5],
        b[6],
        b[7],
    ];
    assert(out@ =~= extracted(state@));
    out
}

/// Two blocks that are mixed into one state as the same word `k` agree on
/// the eight bytes that went into that word.
proof fn lemma_mixed_word(state: Seq<u64>, b1: Seq<u8>, b2: Seq<u8>, last: u64, k: int)
    requires
        0 <= k < 4,
        b1.len() == 32,
        b2.len() == 32,
        mixed(state, b1, last)[k] == mixed(state, b2, last)[k],
    ensures
        b1.subrange(8 * k, 8 * k + 8) == b2.subrange(8 * k, 8 * k + 8),
{
    let c1 = b1.subrange(8 * k, 8 * k + 8);
    let c2 = b2.subrange(8 * k, 8 * k + 8);
    let (w1, w2, s) = (be_word(c1), be_word(c2), state[k]);
    assert(mixed(state, b1, last)[k] == s ^ w1);
    assert(mixed(state, b2, last)[k] == s ^ w2);
    assert(w1 == w2) by (bit_vector)
        requires
            s ^ w1 == s ^ w2,
    ;
    lemma_bytes_of_word(c1);
    lemma_bytes_of_word(c2);
}

/// Different blocks reach the permutation as different words: mixed into
/// one state under one flag, two blocks give the same words only if they
/// are the same 32 bytes.
pub proof fn lemma_mixed_tells_blocks_apart(state: Seq<u64>, b1: Seq<u8>, b2: Seq<u8>, last: u64)
    requires
        b1.len() == 32,
        b2.len() == 32,
        b1 != b2,
    ensures
        mixed(state, b1, last) != mixed(state, b2, last),
{
    if mixed(state, b1, last) == mixed(state, b2, last) {
        lemma_mixed_word(state, b1, b2, last, 0);
        lemma_mixed_word(state, b1, b2, last, 1);
        lemma_mixed_word(state, b1, b2, last, 2);
        lemma_mixed_word(state, b1, b2, last, 3);
        assert forall|i: int| 0 <= i < 32 implies b1[i] == b2[i] by {
            let k = i / 8;
            assert(b1.subrange(8 * k, 8 * k + 8)[i - 8 * k] == b1[i]);
            assert(b2.subrange(8 * k, 8 * k + 8)[i - 8 * k] == b2[i]);
        }
        assert(b1 =~= b2);
    }
}

/// Different states reach the permutation as different words: two states
/// that differ in their word `k`, mixed with one block under one flag, are
/// handed to the permutation as different words.
pub proof fn lemma_mixed_tells_states_apart(
    s1: Seq<u64>,
    s2: Seq<u64>,
    k: int,
    block: Seq<u8>,
    last: u64,
)
    requires
        0 <= k < 5,
        s1[k] != s2[k],
    ensures
        mixed(s1, block, last) != mixed(s2, block, last),
{
    let (w1, w2) = (s1[k], s2[k]);
    let x = if k == 4 {
        last
    } else {
        be_word(block.subrange(8 * k, 8 * k + 8))
    };
    assert(w1 ^ x != w2 ^ x) by (bit_vector)
        requires
            w1 != w2,
    ;
    assert(mixed(s1, block, last)[k] == w1 ^ x);
    assert(mixed(s2, block, last)[k] == w2 ^ x);
}

/// The closing flag always changes the state: with flag 1, whatever the
/// block, the words handed to the permutation are not the state itself.
pub proof fn lemma_closing_flag_changes_state(state: Seq<u64>, block: Seq<u8>)
    ensures
        mixed(state, block, 1) != state,
{
    let word = state[4];
    assert(word ^ 1 != word) by (bit_vector);
    assert(mixed(state, block, 1)[4] != state[4]);
}

} // verus!
