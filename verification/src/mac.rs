//! Ascon-MAC: a message authentication code with a 128-bit key and a
//! 128-bit tag.

use crate::buffer::BlockBuffer;
use crate::padding::{
    absorbed, absorbed_full, lemma_absorbed_full_append, lemma_absorbed_full_one_block,
    lemma_absorbed_full_push, padded, tail_of, MARKER,
};
use crate::sponge::{compress, compressed, extract, extracted, init, initial_state};
use vstd::prelude::*;

verus! {

/// The parameter word of the MAC: a 128-bit key, a rate of 128 bits, twelve
/// rounds, and an output of 128 bits.
pub const MAC_IV: u64 = 0x80808c0000000080;

/// The tag of `msg` under `key`: the keyed state absorbs the message, and
/// the tag is the 16 bytes then extracted, with no further permutation.
pub open spec fn mac_tag(key: Seq<u8>, msg: Seq<u8>) -> Seq<u8> {
    extracted(absorbed(initial_state(MAC_IV, key), msg))
}

/// Whether `tag` is accepted for `msg` under `key`: only the tag of the
/// message is, all 16 bytes of it.
pub open spec fn verifies(key: Seq<u8>, msg: Seq<u8>, tag: Seq<u8>) -> bool {
    tag == mac_tag(key, msg)
}

/// `tag` with bit `bit` of its byte `i` flipped.
pub open spec fn flipped(tag: Seq<u8>, i: int, bit: u8) -> Seq<u8> {
    tag.update(i, tag[i] ^ (1u8 << bit))
}

/// The bytes of a sequence of blocks, one block after the other.
pub open spec fn joined(blocks: Seq<[u8; 32]>) -> Seq<u8>
    decreases blocks.len(),
{
    if blocks.len() == 0 {
        Seq::empty()
    } else {
        joined(blocks.drop_last()) + blocks.last()@
    }
}

/// The blocks of a sequence of blocks make a whole number of blocks.
pub proof fn lemma_joined_len(blocks: Seq<[u8; 32]>)
    ensures
        joined(blocks).len() == 32 * blocks.len(),
    decreases blocks.len(),
{
    if blocks.len() > 0 {
        lemma_joined_len(blocks.drop_last());
    }
}

/// A single block, taken as a sequence of blocks, holds just its own bytes.
pub proof fn lemma_joined_one(block: [u8; 32])
    ensures
        joined(seq![block]) == block@,
{
    let one = seq![block];
    assert(one.drop_last() =~= Seq::<[u8; 32]>::empty());
    assert(joined(one.drop_last()) =~= Seq::<u8>::empty());
    assert(joined(one) =~= block@);
}

/// The block-level core of the MAC: the sponge state, fed whole blocks.
/// Cutting the message into blocks is left to the caller, see `AsconMac`.
pub struct AsconMacCore {
    state: [u64; 5],
}

impl View for AsconMacCore {
    type V = Seq<u64>;

    /// The five words of the state.
    closed spec fn view(&self) -> Seq<u64> {
        self.state@
    }
}

impl AsconMacCore {
    /// Keys a fresh core.
    pub fn new(key: &[u8; 16]) -> (core: Self)
        ensures
            core@ == initial_state(MAC_IV, key@),
            core@.len() == 5,
    {
        AsconMacCore { state: init(MAC_IV, key) }
    }

    /// Absorbs whole blocks of the message, in order, none of them the last.
    pub fn update_blocks(&mut self, blocks: &[[u8; 32]])
        ensures
            final(self)@ == absorbed_full(old(self)@, joined(blocks@)),
            final(self)@.len() == 5,
    {
        let mut i: usize = 0;
        assert(blocks@.take(0) =~= Seq::empty());
        while i < blocks.len()
            invariant
                i <= blocks.len(),
                self@ == absorbed_full(old(self)@, joined(blocks@.take(i as int))),
            decreases blocks.len() - i,
        {
            proof {
                let before = blocks@.take(i as int);
                let after = blocks@.take(i + 1);
                let block = blocks[i as int]@;
                assert(after.drop_last() =~= before);
                assert(joined(after) == joined(before) + block);
                lemma_joined_len(before);
                lemma_absorbed_full_append(old(self)@, joined(before), block);
                lemma_absorbed_full_one_block(self@, block);
            }
            compress(&mut self.state, &blocks[i], 0);
            i += 1;
        }
        assert(blocks@.take(blocks.len() as int) =~= blocks@);
    }

    /// Closes the message: pads what is pending in `buffer`, absorbs it as
    /// the last block, and writes the tag to `out`. The buffer is left
    /// empty.
    pub fn finalize_fixed_core(&mut self, buffer: &mut BlockBuffer, out: &mut [u8; 16])
        ensures
            final(self)@ == compressed(old(self)@, padded(old(buffer)@), 1),
            final(self)@.len() == 5,
            final(out)@ == extracted(final(self)@),
            final(buffer)@ == Seq::<u8>::empty(),
    {
        let ghost pending = buffer@;
        let block = buffer.digest_pad(MARKER);
        assert(block@ == padded(pending));
        compress(&mut self.state, &block, 1);
        *out = extract(&self.state);
    }
}

/// A tag did not match the message.
#[derive(Debug, Clone, Copy, PartialEq, Eq)]
pub struct MacError;

/// Whether two tags are the same 16 bytes. Every byte is looked at,
/// wherever the first difference lies.
pub fn tags_equal(a: &[u8; 16], b: &[u8; 16]) -> (same: bool)
    ensures
        same <==> a@ == b@,
{
    let mut diff: u8 = 0;
    let mut i: usize = 0;
    while i < 16
        invariant
            i <= 16,
            diff == 0 <==> (forall|j: int| 0 <= j < i ==> a[j] == b[j]),
        decreases 16 - i,
    {
        let x = a[i];
        let y = b[i];
        let prev = diff;
        diff = diff | (x ^ y);
        assert((diff == 0) == (prev == 0 && x == y)) by (bit_vector)
            requires
                diff == prev | (x ^ y),
        ;
        i += 1;
    }
    assert(diff == 0 <==> a@ =~= b@);
    diff == 0
}

/// A MAC computation in progress: keyed once, fed the message in pieces of
/// any length, and closed once, by `finalize` or by `verify`.
pub struct AsconMac {
    core: AsconMacCore,
    buffer: BlockBuffer,
    key: Ghost<Seq<u8>>,
    message: Ghost<Seq<u8>>,
}

impl AsconMac {
    /// The state holds the full blocks of the message fed so far, and the
    /// buffer the bytes behind them. `new` establishes this and every
    /// method keeps it.
    pub closed spec fn wf(&self) -> bool {
        &&& self.core@ == absorbed_full(initial_state(MAC_IV, self.key@), self.message@)
        &&& self.buffer@ == tail_of(self.message@)
    }

    /// The key that the computation was started with.
    pub closed spec fn key(&self) -> Seq<u8> {
        self.key@
    }

    /// All the bytes fed so far, in the order they came.
    pub closed spec fn message(&self) -> Seq<u8> {
        self.message@
    }

    /// Starts a computation under `key`, with nothing fed yet.
    pub fn new(key: &[u8; 16]) -> (mac: Self)
        ensures
            mac.wf(),
            mac.key() == key@,
            mac.message() == Seq::<u8>::empty(),
    {
        let core = AsconMacCore::new(key);
        let buffer = BlockBuffer::new();
        assert(tail_of(Seq::<u8>::empty()) =~= Seq::<u8>::empty());
        AsconMac { core, buffer, key: Ghost(key@), message: Ghost(Seq::empty()) }
    }

    /// Feeds the next bytes of the message. Only the bytes count, not how
    /// they are cut into calls.
    pub fn update(&mut self, data: &[u8])
        requires
            old(self).wf(),
        ensures
            final(self).wf(),
            final(self).key() == old(self).key(),
            final(self).message() == old(self).message() + data@,
    {
        let mut i: usize = 0;
        assert(old(self).message() + data@.take(0) =~= old(self).message());
        while i < data.len()
            invariant
                i <= data.len(),
                self.wf(),
                self.key() == old(self).key(),
                self.message() == old(self).message() + data@.take(i as int),
            decreases data.len() - i,
        {
            let byte = data[i];
            proof {
                let fed = data@.take(i as int);
                lemma_absorbed_full_push(initial_state(MAC_IV, self.key@), self.message@, byte);
                assert(data@.take(i + 1) =~= fed.push(byte));
                assert(old(self).message() + fed.push(byte) =~= (old(self).message() + fed).push(
                    byte,
                ));
            }
            let full = self.buffer.push(byte);
            match full {
                Some(block) => {
                    let blocks = [block];
                    proof {
                        assert(blocks@ =~= seq![block]);
                        lemma_joined_one(block);
                        lemma_absorbed_full_one_block(self.core@, block@);
                    }
                    self.core.update_blocks(&blocks);
                },
                None => {},
            }
            self.message = Ghost(self.message@.push(byte));
            i += 1;
        }
        assert(data@.take(data.len() as int) =~= data@);
    }

    /// Closes the message and returns its tag.
    pub fn finalize(self) -> (tag: [u8; 16])
        requires
            self.wf(),
        ensures
            tag@ == mac_tag(self.key(), self.message()),
    {
        let mut core = self.core;
        let mut buffer = self.buffer;
        let mut tag = [0u8; 16];
        core.finalize_fixed_core(&mut buffer, &mut tag);
        proof {
            reveal(absorbed);
        }
        tag
    }

    /// Closes the message and checks `tag` against it: `Ok` if `tag` is the
    /// tag of the message under the key, `Err` for any other 16 bytes.
    pub fn verify(self, tag: &[u8; 16]) -> (outcome: Result<(), MacError>)
        requires
            self.wf(),
        ensures
            outcome is Ok <==> verifies(self.key(), self.message(), tag@),
    {
        let expected = self.finalize();
        if tags_equal(&expected, tag) {
            Ok(())
        } else {
            Err(MacError)
        }
    }
}

/// The tag computed for a message is accepted for that message under the
/// same key.
pub proof fn lemma_tag_verifies(key: Seq<u8>, msg: Seq<u8>)
    ensures
        verifies(key, msg, mac_tag(key, msg)),
{
}

/// A tag with any one of its 128 bits flipped is rejected.
pub proof fn lemma_flipped_tag_rejected(key: Seq<u8>, msg: Seq<u8>, i: int, bit: u8)
    requires
        0 <= i < 16,
        bit < 8,
    ensures
        !verifies(key, msg, flipped(mac_tag(key, msg), i, bit)),
{
    let tag = mac_tag(key, msg);
    let byte = tag[i];
    assert(tag.len() == 16);
    assert(byte ^ (1u8 << bit) != byte) by (bit_vector)
        requires
            bit < 8,
    ;
    assert(flipped(tag, i, bit)[i] != tag[i]);
}

} // verus!
