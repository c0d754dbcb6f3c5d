//! The buffer that holds the bytes of a message that do not yet fill a
//! block.

use crate::padding::zeros;
use vstd::prelude::*;

verus! {

/// Up to 31 pending bytes of input. A buffer never holds a whole block: the
/// push that completes one hands the block out and leaves the buffer empty.
#[derive(Debug)]
pub struct BlockBuffer {
    block: [u8; 32],
    pos: usize,
}

impl View for BlockBuffer {
    type V = Seq<u8>;

    /// The pending bytes, oldest first.
    closed spec fn view(&self) -> Seq<u8> {
        self.block@.take(self.pos as int)
    }
}

impl BlockBuffer {
    #[verifier::type_invariant]
    spec fn inv(&self) -> bool {
        self.pos < 32
    }

    /// An empty buffer.
    pub fn new() -> (buffer: Self)
        ensures
            buffer@ == Seq::<u8>::empty(),
    {
        let buffer = BlockBuffer { block: [0u8; 32], pos: 0 };
        assert(buffer@ =~= Seq::<u8>::empty());
        buffer
    }

    /// A buffer that holds the bytes of `pending`, if they are fewer than a
    /// block.
    pub fn from_pending(pending: &[u8]) -> (buffer: Option<Self>)
        ensures
            buffer is Some <==> pending.len() < 32,
            buffer matches Some(b) ==> b@ == pending@,
    {
        if pending.len() >= 32 {
            return None;
        }
        let mut block = [0u8; 32];
        let mut i: usize = 0;
        while i < pending.len()
            invariant
                i <= pending.len() < 32,
                forall|j: int| 0 <= j < i ==> block[j] == pending[j],
            decreases pending.len() - i,
        {
            block[i] = pending[i];
            i += 1;
        }
        let buffer = BlockBuffer { block, pos: i };
        assert(buffer@ =~= pending@);
        Some(buffer)
    }

    /// The number of pending bytes, which is always less than a block.
    pub fn get_pos(&self) -> (pos: usize)
        ensures
            pos == self@.len(),
            pos < 32,
    {
        proof {
            use_type_invariant(self);
        }
        self.pos
    }

    /// Appends one byte. When that byte completes a block, the block is
    /// returned and the buffer is empty again.
    pub fn push(&mut self, byte: u8) -> (full: Option<[u8; 32]>)
        ensures
            old(self)@.len() < 32,
            full is Some <==> old(self)@.len() == 31,
            full matches Some(block) ==> block@ == old(self)@.push(byte) && final(self)@
                == Seq::<u8>::empty(),
            full is None ==> final(self)@ == old(self)@.push(byte),
    {
        proof {
            use_type_invariant(&*self);
        }
        let pos = self.pos;
        self.block[pos] = byte;
        if pos == 31 {
            self.pos = 0;
            assert(self.block@ =~= old(self)@.push(byte));
            assert(self@ =~= Seq::<u8>::empty());
            Some(self.block)
        } else {
            self.pos = pos + 1;
            assert(self@ =~= old(self)@.push(byte));
            None
        }
    }

    /// Closes the pending bytes into one block: the bytes, then `delim`,
    /// then zeros. The buffer is empty afterwards.
    pub fn digest_pad(&mut self, delim: u8) -> (block: [u8; 32])
        ensures
            old(self)@.len() < 32,
            block@ == old(self)@ + seq![delim] + zeros((31 - old(self)@.len()) as nat),
            final(self)@ == Seq::<u8>::empty(),
    {
        proof {
            use_type_invariant(&*self);
        }
        let pos = self.pos;
        let mut block = self.block;
        block[pos] = delim;
        let mut i: usize = pos + 1;
        while i < 32
            invariant
                pos < i <= 32,
                forall|j: int| 0 <= j < pos ==> block[j] == self.block[j],
                block[pos as int] == delim,
                forall|j: int| pos < j < i ==> block[j] == 0,
            decreases 32 - i,
        {
            block[i] = 0;
            i += 1;
        }
        self.pos = 0;
        assert(block@ =~= old(self)@ + seq![delim] + zeros((31 - old(self)@.len()) as nat));
        assert(self@ =~= Seq::<u8>::empty());
        block
    }
}

} // verus!
