//! Ascon-PRF: a keyed pseudorandom function with output of any length, and
//! its single-call form for inputs and outputs of at most 16 bytes.

use crate::padding::{
    absorbed, block_at, lemma_absorbed_chunk, lemma_absorbed_short, pad_block, zeros,
};
use crate::permutation::{permute_12, permuted};
use crate::sponge::{compress, compressed, extract, extracted, init, initial_state};
use crate::word::{
    be_bytes, be_word, le_bytes, lemma_reversed_bytes, load_be, reverse_bytes, reversed, store_be,
};
use vstd::prelude::*;

verus! {

/// The parameter word of the PRF: a 128-bit key, a rate of 128 bits, twelve
/// rounds, and output without bound.
pub const PRF_IV: u64 = 0x80808c0000000000;

/// The state after `blocks` further permutations.
pub open spec fn advanced(state: Seq<u64>, blocks: nat) -> Seq<u64>
    decreases blocks,
{
    if blocks == 0 {
        state
    } else {
        permuted(advanced(state, (blocks - 1) as nat))
    }
}

/// Byte `i` of the output stream of a state: the stream is the 16 bytes
/// extracted from the state, then the 16 extracted after one permutation,
/// and so on.
pub open spec fn stream_byte(state: Seq<u64>, i: int) -> u8 {
    extracted(advanced(state, (i / 16) as nat))[i % 16]
}

/// The first `n` bytes of the output stream of a state.
pub open spec fn squeezed(state: Seq<u64>, n: nat) -> Seq<u8> {
    Seq::new(n, |i: int| stream_byte(state, i))
}

/// The number of 16-byte blocks that `n` bytes of output take up, the last
/// one possibly in part.
pub open spec fn blocks_for(n: nat) -> nat {
    ((n + 15) / 16) as nat
}

/// A PRF computation: a sponge state that absorbs input and gives out a
/// stream of output bytes.
#[derive(Debug)]
pub struct AsconPrf {
    state: [u64; 5],
}

impl View for AsconPrf {
    type V = Seq<u64>;

    /// The five words of the state.
    closed spec fn view(&self) -> Seq<u64> {
        self.state@
    }
}

impl Clone for AsconPrf {
    /// An independent copy of the computation, with the same five words.
    fn clone(&self) -> (copy: Self)
        ensures
            copy@ == self@,
    {
        AsconPrf { state: self.state }
    }
}

impl AsconPrf {
    /// Keys a fresh state.
    pub fn init(key: [u8; 16]) -> (prf: Self)
        ensures
            prf@ == initial_state(PRF_IV, key@),
            prf@.len() == 5,
    {
        AsconPrf { state: init(PRF_IV, &key) }
    }

    fn absorb_block(&mut self, block: &[u8; 32], last: u64)
        ensures
            final(self)@ == compressed(old(self)@, block@, last),
    {
        compress(&mut self.state, block, last);
    }

    /// Absorbs `data` as one whole message: its full 32-byte chunks, then
    /// its padded tail as the closing block. Each call closes a message of
    /// its own, an empty one too.
    pub fn feed(&mut self, data: &[u8])
        ensures
            final(self)@ == absorbed(old(self)@, data@),
            final(self)@.len() == 5,
    {
        let mut pos: usize = 0;
        assert(data@.skip(0) =~= data@);
        while data.len() - pos >= 32
            invariant
                pos <= data.len(),
                absorbed(old(self)@, data@) == absorbed(self@, data@.skip(pos as int)),
            decreases data.len() - pos,
        {
            let block = block_at(data, pos);
            proof {
                lemma_absorbed_chunk(self@, data@, pos as int);
            }
            self.absorb_block(&block, 0);
            pos += 32;
        }
        let tail = &data[pos..data.len()];
        proof {
            assert(tail@ =~= data@.skip(pos as int));
            lemma_absorbed_short(self@, tail@);
        }
        let block = pad_block(tail);
        self.absorb_block(&block, 1);
    }

    fn squeeze_block(&mut self) -> (block: [u8; 16])
        ensures
            block@ == extracted(old(self)@),
            final(self)@ == permuted(old(self)@),
    {
        let block = extract(&self.state);
        self.state = permute_12(self.state);
        block
    }

    /// Keys a fresh state from a 16-byte seed, for use as a block generator:
    /// the same as `init`.
    pub fn from_seed(seed: [u8; 16]) -> (prf: Self)
        ensures
            prf@ == initial_state(PRF_IV, seed@),
            prf@.len() == 5,
    {
        Self::init(seed)
    }

    /// Gives out the next 16 bytes of the output stream as two words, for a
    /// layer that writes words out least significant byte first: it then
    /// writes the very bytes that `fetch` gives. The state moves on by one
    /// permutation.
    pub fn generate(&mut self, results: &mut [u64; 2])
        ensures
            final(results)@ == seq![reversed(old(self)@[0]), reversed(old(self)@[1])],
            final(self)@ == permuted(old(self)@),
            final(self)@.len() == 5,
    {
        let a = reverse_bytes(self.state[0]);
        let b = reverse_bytes(self.state[1]);
        self.state = permute_12(self.state);
        *results = [a, b];
        assert(results@ =~= seq![reversed(old(self)@[0]), reversed(old(self)@[1])]);
    }

    /// Fills `output` with the next bytes of the output stream. The state
    /// moves on by one permutation for every 16 bytes given out, and by one
    /// more for a last block given out in part: what is left of that block
    /// is dropped.
    pub fn fetch(&mut self, output: &mut [u8])
        ensures
            final(output)@ == squeezed(old(self)@, old(output)@.len()),
            final(self)@ == advanced(old(self)@, blocks_for(old(output)@.len())),
            final(self)@.len() == 5,
    {
        let n = output.len();
        let mut pos: usize = 0;
        while n - pos >= 16
            invariant
                pos <= n,
                pos % 16 == 0,
                output@.len() == n,
                self@ == advanced(old(self)@, (pos / 16) as nat),
                forall|j: int| 0 <= j < pos ==> output@[j] == stream_byte(old(self)@, j),
            decreases n - pos,
        {
            let block = self.squeeze_block();
            copy_prefix(output, pos, &block, 16);
            pos += 16;
        }
        if pos < n {
            let block = self.squeeze_block();
            copy_prefix(output, pos, &block, n - pos);
        }
        assert(output@ =~= squeezed(old(self)@, n as nat));
    }
}

/// The parameter word of the short-input PRF, before the two lengths are
/// written into it: a 128-bit key, no rate, twelve rounds.
pub const SHORT_IV: u64 = 0x80004c0000000000;

/// The parameter word of the short-input PRF for a message of `m` bytes and
/// a tag of `t` bytes: the two lengths, counted in bits, fill the second and
/// the fourth byte of the word.
pub open spec fn short_iv(m: u64, t: u64) -> u64 {
    SHORT_IV ^ (m << 51) ^ (t << 35)
}

/// The words handed to the permutation by the short-input PRF: the
/// parameter word, the key, and the 16 bytes of `data` as two words.
pub open spec fn short_words(key: Seq<u8>, m: u64, t: u64, data: Seq<u8>) -> Seq<u64> {
    seq![
        short_iv(m, t),
        be_word(key.subrange(0, 8)),
        be_word(key.subrange(8, 16)),
        be_word(data.subrange(0, 8)),
        be_word(data.subrange(8, 16)),
    ]
}

/// The 16 bytes that the short-input PRF computes from a 16-byte block
/// `data`: the words are permuted once, and words 0 and 1 of the result,
/// each XORed with its half of the key, are written out big-endian.
pub open spec fn short_block(key: Seq<u8>, m: u64, t: u64, data: Seq<u8>) -> Seq<u8> {
    let state = permuted(short_words(key, m, t, data));
    be_bytes(be_word(key.subrange(0, 8)) ^ state[0]) + be_bytes(
        be_word(key.subrange(8, 16)) ^ state[1],
    )
}

/// The tag of `t` bytes that the short-input PRF gives a message of at most
/// 16 bytes: the message is filled up with zeros to 16 bytes, and the tag
/// is the first `t` bytes of what `short_block` computes.
pub open spec fn prf_short(key: Seq<u8>, msg: Seq<u8>, t: nat) -> Seq<u8> {
    short_block(key, msg.len() as u64, t as u64, msg + zeros((16 - msg.len()) as nat)).take(
        t as int,
    )
}

/// The short-input PRF: writes to `output` the tag of `output.len()` bytes
/// of the message `data` under `key`, with a single call of the
/// permutation. Message and tag are at most 16 bytes each.
pub fn ascon_prf_short(key: [u8; 16], data: &[u8], output: &mut [u8])
    requires
        data@.len() <= 16,
        old(output)@.len() <= 16,
    ensures
        final(output)@ == prf_short(key@, data@, old(output)@.len()),
{
    let mut m = [0u8; 16];
    copy_prefix(&mut m, 0, data, data.len());
    assert(m@ =~= data@ + zeros((16 - data@.len()) as nat));
    let len = output.len();
    let t = ascon_prf_short_inner(key, data.len() as u64, len as u64, &m);
    copy_prefix(output, 0, &t, len);
    assert(output@ =~= t@.take(len as int));
}

/// The short-input PRF for a message of exactly 16 bytes and a tag of 16
/// bytes.
pub fn ascon_prf_short_128(key: [u8; 16], data: &[u8; 16]) -> (tag: [u8; 16])
    ensures
        tag@ == prf_short(key@, data@, 16),
{
    let tag = ascon_prf_short_inner(key, 16, 16, data);
    assert(data@ + zeros(0) =~= data@);
    assert(tag@.take(16) =~= tag@);
    tag
}

fn ascon_prf_short_inner(key: [u8; 16], m: u64, t: u64, data: &[u8; 16]) -> (tag: [u8; 16])
    requires
        m <= 16,
        t <= 16,
    ensures
        tag@ == short_block(key@, m, t, data@),
{
    let iv = SHORT_IV ^ (m << 51) ^ (t << 35);
    let k0 = load_be(&key, 0);
    let k1 = load_be(&key, 8);
    let m0 = load_be(data, 0);
    let m1 = load_be(data, 8);
    let words = [iv, k0, k1, m0, m1];
    assert(words@ =~= short_words(key@, m, t, data@));
    let state = permute_12(words);
    let t0 = store_be(k0 ^ state[0]);
    let t1 = store_be(k1 ^ state[1]);
    let mut tag = [0u8; 16];
    copy_prefix(&mut tag, 0, &t0, 8);
    copy_prefix(&mut tag, 8, &t1, 8);
    assert(tag@ =~= short_block(key@, m, t, data@));
    tag
}

/// Copies the first `len` bytes of `src` into `dst`, from index `at` on.
fn copy_prefix(dst: &mut [u8], at: usize, src: &[u8], len: usize)
    requires
        at + len <= old(dst)@.len(),
        len <= src@.len(),
    ensures
        final(dst)@ == old(dst)@.take(at as int) + src@.take(len as int) + old(dst)@.skip(
            at + len,
        ),
{
    let n = dst.len();
    let mut k: usize = 0;
    while k < len
        invariant
            k <= len <= src@.len(),
            at + len <= n,
            dst@.len() == n == old(dst)@.len(),
            forall|j: int| 0 <= j < at ==> dst@[j] == old(dst)@[j],
            forall|j: int| at <= j < at + k ==> dst@[j] == src@[j - at],
            forall|j: int| at + k <= j < dst@.len() ==> dst@[j] == old(dst)@[j],
        decreases len - k,
    {
        dst[at + k] = src[k];
        k += 1;
    }
    assert(dst@ =~= old(dst)@.take(at as int) + src@.take(len as int) + old(dst)@.skip(
        at + len,
    ));
}

/// Permutations add up: moving on by `b` blocks from a state that has moved
/// on by `a` is moving on by `a + b`.
pub proof fn lemma_advanced_add(state: Seq<u64>, a: nat, b: nat)
    ensures
        advanced(advanced(state, a), b) == advanced(state, a + b),
    decreases b,
{
    if b > 0 {
        lemma_advanced_add(state, a, (b - 1) as nat);
    }
}

/// Output does not depend on how it is asked for, as long as every request
/// but the last is for whole blocks: `a` bytes and then `b` bytes are the
/// same bytes as `a + b` at once, and leave the same state. So two reads of
/// 16 bytes give what one read of 32 gives.
pub proof fn lemma_squeezed_in_pieces(state: Seq<u64>, a: nat, b: nat)
    requires
        a % 16 == 0,
    ensures
        squeezed(state, a + b) == squeezed(state, a) + squeezed(
            advanced(state, blocks_for(a)),
            b,
        ),
        advanced(advanced(state, blocks_for(a)), blocks_for(b)) == advanced(
            state,
            blocks_for(a + b),
        ),
{
    let k = blocks_for(a);
    assert(k == a / 16);
    let later = advanced(state, k);
    assert forall|i: int| 0 <= i < b implies stream_byte(later, i) == stream_byte(
        state,
        a + i,
    ) by {
        lemma_advanced_add(state, k, (i / 16) as nat);
        assert((a + i) / 16 == k + i / 16);
        assert((a + i) % 16 == i % 16);
    }
    assert(squeezed(state, a + b) =~= squeezed(state, a) + squeezed(later, b));
    lemma_advanced_add(state, k, blocks_for(b));
    assert(blocks_for(a + b) == k + blocks_for(b));
}

/// The two words that `generate` gives out, each written least significant
/// byte first, are the next 16 bytes of the output stream: a generator
/// layer that writes words that way gives the bytes that `fetch` gives.
pub proof fn lemma_generated_words_are_stream(state: Seq<u64>)
    ensures
        le_bytes(reversed(state[0])) + le_bytes(reversed(state[1])) == squeezed(state, 16),
{
    lemma_reversed_bytes(state[0]);
    lemma_reversed_bytes(state[1]);
    assert(extracted(state) =~= squeezed(state, 16));
}

/// The parameter words of the short-input PRF tell every pair of lengths
/// from every other: no two pairs of a message length and a tag length, of
/// at most 16 bytes each, share a parameter word.
pub proof fn lemma_short_iv_injective(m1: u64, t1: u64, m2: u64, t2: u64)
    requires
        m1 <= 16,
        t1 <= 16,
        m2 <= 16,
        t2 <= 16,
        m1 != m2 || t1 != t2,
    ensures
        short_iv(m1, t1) != short_iv(m2, t2),
{
    assert((0x80004c0000000000u64 ^ (m1 << 51) ^ (t1 << 35)) != (0x80004c0000000000u64 ^ (m2
        << 51) ^ (t2 << 35))) by (bit_vector)
        requires
            m1 <= 16,
            t1 <= 16,
            m2 <= 16,
            t2 <= 16,
            m1 != m2 || t1 != t2,
    ;
}

} // verus!
