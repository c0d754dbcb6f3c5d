//! Padding of a message to whole 32-byte blocks, and what a state becomes
//! when it absorbs a message so padded.
//!
//! A message is cut into 32-byte chunks. Every full chunk is absorbed with
//! flag 0. What is left, zero to 31 bytes, is closed with the marker byte
//! `0x80`, filled up with zeros and absorbed with flag 1. The closing block
//! is never left out, so no two messages are absorbed as the same blocks.

use crate::permutation::{collide, permuted};
use crate::sponge::{
    compressed, lemma_closing_flag_changes_state, lemma_mixed_tells_blocks_apart,
    lemma_mixed_tells_states_apart, mixed,
};
use vstd::prelude::*;

verus! {

/// The byte that closes a message before the zero fill.
pub const MARKER: u8 = 0x80;

/// `n` zero bytes.
pub open spec fn zeros(n: nat) -> Seq<u8> {
    Seq::new(n, |i: int| 0u8)
}

/// The message followed by the marker byte and by as many zero bytes as it
/// takes to reach the next multiple of 32.
pub open spec fn padded(msg: Seq<u8>) -> Seq<u8> {
    msg + seq![MARKER] + zeros((31 - msg.len() % 32) as nat)
}

/// What is left of `data` behind its last full 32-byte chunk.
pub open spec fn tail_of(data: Seq<u8>) -> Seq<u8> {
    data.skip(data.len() - data.len() % 32)
}

/// The state after absorbing every full 32-byte chunk of `data`, in order,
/// each with flag 0. The bytes behind the last full chunk are not touched.
pub open spec fn absorbed_full(state: Seq<u64>, data: Seq<u8>) -> Seq<u64>
    decreases data.len(),
{
    if data.len() < 32 {
        state
    } else {
        absorbed_full(compressed(state, data.take(32), 0), data.skip(32))
    }
}

/// The state after absorbing the whole of `msg`: its full chunks with flag
/// 0, then its padded tail with flag 1.
#[verifier::opaque]
pub open spec fn absorbed(state: Seq<u64>, msg: Seq<u8>) -> Seq<u64> {
    compressed(absorbed_full(state, msg), padded(tail_of(msg)), 1)
}

/// The state after absorbing the blocks of an already padded sequence `p`:
/// all but the last with flag 0, the last with flag 1.
pub open spec fn absorbed_blocks(state: Seq<u64>, p: Seq<u8>) -> Seq<u64>
    decreases p.len(),
{
    if p.len() <= 32 {
        compressed(state, p, 1)
    } else {
        absorbed_blocks(compressed(state, p.take(32), 0), p.skip(32))
    }
}

/// Copies out the 32 bytes of `data` that start at index `pos`.
pub fn block_at(data: &[u8], pos: usize) -> (block: [u8; 32])
    requires
        pos + 32 <= data.len(),
    ensures
        block@ == data@.subrange(pos as int, pos + 32),
{
    let mut block = [0u8; 32];
    let mut i: usize = 0;
    while i < 32
        invariant
            i <= 32,
            pos + 32 <= data.len(),
            forall|j: int| 0 <= j < i ==> block[j] == data[pos + j],
        decreases 32 - i,
    {
        block[i] = data[pos + i];
        i += 1;
    }
    assert(block@ =~= data@.subrange(pos as int, pos + 32));
    block
}

/// Builds the closing block of a message from its tail of fewer than 32
/// bytes: the tail, the marker byte, zeros.
pub fn pad_block(tail: &[u8]) -> (block: [u8; 32])
    requires
        tail.len() < 32,
    ensures
        block@ == padded(tail@),
{
    let mut block = [0u8; 32];
    let mut i: usize = 0;
    while i < tail.len()
        invariant
            i <= tail.len() < 32,
            forall|j: int| 0 <= j < i ==> block[j] == tail[j],
            forall|j: int| i <= j < 32 ==> block[j] == 0,
        decreases tail.len() - i,
    {
        block[i] = tail[i];
        i += 1;
    }
    block[i] = MARKER;
    assert(block@ =~= padded(tail@));
    block
}

/// A padded message is a whole number of blocks, and at least one.
pub proof fn lemma_padded_len(msg: Seq<u8>)
    ensures
        padded(msg).len() == 32 * (msg.len() / 32) + 32,
        padded(msg).len() % 32 == 0,
        padded(msg).len() > msg.len(),
{
}

/// Padding is injective: two different messages never pad to the same
/// sequence of blocks, whatever their lengths, block-aligned or not.
pub proof fn lemma_padding_injective(a: Seq<u8>, b: Seq<u8>)
    requires
        a != b,
    ensures
        padded(a) != padded(b),
{
    if padded(a) == padded(b) {
        lemma_padded_len(a);
        lemma_padded_len(b);
        if a.len() < b.len() {
            // Seen from `a`, position `b.len()` lies in the zero fill.
            assert(padded(a)[b.len() as int] == 0);
            assert(padded(b)[b.len() as int] == MARKER);
        } else if b.len() < a.len() {
            assert(padded(b)[a.len() as int] == 0);
            assert(padded(a)[a.len() as int] == MARKER);
        } else {
            assert(a =~= padded(a).take(a.len() as int));
            assert(b =~= padded(b).take(b.len() as int));
        }
    }
}

/// Absorbing full chunks goes chunk by chunk: behind a prefix of whole
/// blocks, absorption of the rest starts from the state that the prefix
/// left.
pub proof fn lemma_absorbed_full_append(state: Seq<u64>, a: Seq<u8>, b: Seq<u8>)
    requires
        a.len() % 32 == 0,
    ensures
        absorbed_full(state, a + b) == absorbed_full(absorbed_full(state, a), b),
    decreases a.len(),
{
    if a.len() == 0 {
        assert(a + b =~= b);
    } else {
        assert((a + b).take(32) =~= a.take(32));
        assert((a + b).skip(32) =~= a.skip(32) + b);
        lemma_absorbed_full_append(compressed(state, a.take(32), 0), a.skip(32), b);
    }
}

/// Absorbing the full chunks of exactly one block is compressing that
/// block with flag 0.
pub proof fn lemma_absorbed_full_one_block(state: Seq<u64>, block: Seq<u8>)
    requires
        block.len() == 32,
    ensures
        absorbed_full(state, block) == compressed(state, block, 0),
{
    assert(block.take(32) =~= block);
    assert(absorbed_full(compressed(state, block, 0), block.skip(32)) == compressed(
        state,
        block,
        0,
    ));
}

/// The bytes behind the last full chunk do not change what the full chunks
/// leave: only the whole blocks of `data` count.
pub proof fn lemma_absorbed_full_ignores_tail(state: Seq<u64>, data: Seq<u8>)
    ensures
        absorbed_full(state, data) == absorbed_full(
            state,
            data.take(data.len() - data.len() % 32),
        ),
{
    let whole = data.take(data.len() - data.len() % 32);
    assert(data =~= whole + tail_of(data));
    lemma_absorbed_full_append(state, whole, tail_of(data));
}

/// What one more byte does to a message fed in pieces. While the tail stays
/// short of a block, the byte joins the tail and no block is absorbed. When
/// the byte completes a block, that block is absorbed with flag 0 and the
/// tail is empty again.
pub proof fn lemma_absorbed_full_push(state: Seq<u64>, msg: Seq<u8>, byte: u8)
    ensures
        tail_of(msg).len() < 32,
        tail_of(msg).len() < 31 ==> tail_of(msg.push(byte)) == tail_of(msg).push(byte)
            && absorbed_full(state, msg.push(byte)) == absorbed_full(state, msg),
        tail_of(msg).len() == 31 ==> tail_of(msg.push(byte)) == Seq::<u8>::empty()
            && absorbed_full(state, msg.push(byte)) == compressed(
            absorbed_full(state, msg),
            tail_of(msg).push(byte),
            0,
        ),
{
    let whole = msg.take(msg.len() - msg.len() % 32);
    let tail = tail_of(msg);
    let longer = tail.push(byte);
    assert(msg.push(byte) =~= whole + longer);
    lemma_absorbed_full_ignores_tail(state, msg);
    lemma_absorbed_full_append(state, whole, longer);
    if tail.len() < 31 {
        assert(tail_of(msg.push(byte)) =~= longer);
    } else {
        assert(tail_of(msg.push(byte)) =~= Seq::<u8>::empty());
        lemma_absorbed_full_one_block(absorbed_full(state, whole), longer);
    }
}

/// One step of absorption: a message of 32 bytes or more is absorbed by
/// compressing its first block with flag 0 and absorbing the rest.
pub proof fn lemma_absorbed_step(state: Seq<u64>, msg: Seq<u8>)
    requires
        msg.len() >= 32,
    ensures
        absorbed(state, msg) == absorbed(compressed(state, msg.take(32), 0), msg.skip(32)),
{
    reveal(absorbed);
    assert(tail_of(msg) =~= tail_of(msg.skip(32)));
}

/// The same step, seen from inside a longer input: what is left of `data`
/// from `pos` on is absorbed by compressing its next 32 bytes with flag 0
/// and absorbing what is left from `pos + 32` on.
pub proof fn lemma_absorbed_chunk(state: Seq<u64>, data: Seq<u8>, pos: int)
    requires
        0 <= pos,
        pos + 32 <= data.len(),
    ensures
        absorbed(state, data.skip(pos)) == absorbed(
            compressed(state, data.subrange(pos, pos + 32), 0),
            data.skip(pos + 32),
        ),
{
    let rest = data.skip(pos);
    lemma_absorbed_step(state, rest);
    assert(rest.take(32) =~= data.subrange(pos, pos + 32));
    assert(rest.skip(32) =~= data.skip(pos + 32));
}

/// A message shorter than one block is absorbed as its single padded block.
pub proof fn lemma_absorbed_short(state: Seq<u64>, msg: Seq<u8>)
    requires
        msg.len() < 32,
    ensures
        absorbed(state, msg) == compressed(state, padded(msg), 1),
{
    reveal(absorbed);
    assert(tail_of(msg) =~= msg);
}

/// Padding leaves the first block of a long message alone: the padding of
/// a message of 32 bytes or more is its first block, then the padding of
/// the rest.
pub proof fn lemma_padded_step(msg: Seq<u8>)
    requires
        msg.len() >= 32,
    ensures
        padded(msg).take(32) == msg.take(32),
        padded(msg).skip(32) == padded(msg.skip(32)),
{
    let rest = msg.skip(32);
    assert(rest.len() % 32 == msg.len() % 32);
    assert(padded(msg).take(32) =~= msg.take(32));
    assert(padded(msg).len() == padded(rest).len() + 32);
    assert(padded(msg).skip(32) =~= padded(rest));
}

/// Absorbing a message is absorbing the blocks of its padding: the two
/// descriptions of absorption agree.
pub proof fn lemma_absorbed_is_padded_blocks(state: Seq<u64>, msg: Seq<u8>)
    ensures
        absorbed(state, msg) == absorbed_blocks(state, padded(msg)),
    decreases msg.len(),
{
    lemma_padded_len(msg);
    if msg.len() < 32 {
        lemma_absorbed_short(state, msg);
    } else {
        lemma_absorbed_step(state, msg);
        lemma_padded_step(msg);
        lemma_absorbed_is_padded_blocks(compressed(state, msg.take(32), 0), msg.skip(32));
    }
}

/// Two different messages are absorbed as different sequences of padded
/// blocks. Whether the states they lead to differ is a property of the
/// permutation and is not claimed.
pub proof fn lemma_absorbed_inputs_differ(state: Seq<u64>, a: Seq<u8>, b: Seq<u8>)
    requires
        a != b,
    ensures
        absorbed(state, a) == absorbed_blocks(state, padded(a)),
        absorbed(state, b) == absorbed_blocks(state, padded(b)),
        padded(a) != padded(b),
{
    lemma_absorbed_is_padded_blocks(state, a);
    lemma_absorbed_is_padded_blocks(state, b);
    lemma_padding_injective(a, b);
}

/// Two different inputs of less than a block each, absorbed by one state,
/// lead to different states, unless the permutation sends two different
/// inputs to one output: the words it is handed differ.
pub proof fn lemma_short_inputs_lead_apart(state: Seq<u64>, a: Seq<u8>, b: Seq<u8>)
    requires
        a.len() < 32,
        b.len() < 32,
        a != b,
    ensures
        mixed(state, padded(a), 1) != mixed(state, padded(b), 1),
        absorbed(state, a) != absorbed(state, b) || collide(
            mixed(state, padded(a), 1),
            mixed(state, padded(b), 1),
        ),
{
    lemma_absorbed_short(state, a);
    lemma_absorbed_short(state, b);
    lemma_padding_injective(a, b);
    lemma_padded_len(a);
    lemma_padded_len(b);
    lemma_mixed_tells_blocks_apart(state, padded(a), padded(b), 1);
}

/// Two states that differ in their word `k` and absorb the same input of
/// less than a block lead to different states, unless the permutation
/// sends two different inputs to one output.
pub proof fn lemma_short_input_keeps_states_apart(
    s1: Seq<u64>,
    s2: Seq<u64>,
    k: int,
    msg: Seq<u8>,
)
    requires
        0 <= k < 5,
        s1[k] != s2[k],
        msg.len() < 32,
    ensures
        absorbed(s1, msg) != absorbed(s2, msg) || collide(
            mixed(s1, padded(msg), 1),
            mixed(s2, padded(msg), 1),
        ),
{
    lemma_absorbed_short(s1, msg);
    lemma_absorbed_short(s2, msg);
    lemma_mixed_tells_states_apart(s1, s2, k, padded(msg), 1);
}

/// Absorbing an input of less than a block, an empty one too, is not the
/// same as one plain permutation of the state, unless the permutation
/// sends two different inputs to one output: the closing flag makes the
/// words it is handed differ from the state.
pub proof fn lemma_short_input_is_no_plain_step(state: Seq<u64>, msg: Seq<u8>)
    requires
        msg.len() < 32,
    ensures
        mixed(state, padded(msg), 1) != state,
        absorbed(state, msg) != permuted(state) || collide(mixed(state, padded(msg), 1), state),
{
    lemma_absorbed_short(state, msg);
    lemma_closing_flag_changes_state(state, padded(msg));
}

} // verus!
